use invoice::{
    Format, UnknownFormat, AmountExt, AmountParseError, Chain, ConsignmentEndpoint, ConsignmentEndpointParseError,
    Iso4217, Iso4217Error, Network, Quantity, Recurrent, UnsupportedChain,
};

#[test]
fn amount_any_in_any_case() {
    assert_eq!(AmountExt::from_str("any"), Ok(AmountExt::Any));
    assert_eq!(AmountExt::from_str("ANY"), Ok(AmountExt::Any));
    assert_eq!(AmountExt::from_str("aNy"), Ok(AmountExt::Any));
    assert_eq!(AmountExt::from_str("  Any\t"), Ok(AmountExt::Any));
}

#[test]
fn amount_normal() {
    assert_eq!(AmountExt::from_str("1000"), Ok(AmountExt::Normal(1000)));
    assert_eq!(AmountExt::from_str("+7"), Ok(AmountExt::Normal(7)));
    assert_eq!(
        AmountExt::from_str("18446744073709551615"),
        Ok(AmountExt::Normal(u64::MAX))
    );
}

#[test]
fn amount_milli() {
    assert_eq!(AmountExt::from_str("0.5"), Ok(AmountExt::Milli(0, 5)));
    assert_eq!(AmountExt::from_str("12.65535"), Ok(AmountExt::Milli(12, 65535)));
    assert_eq!(AmountExt::from_str("1.2.3"), Ok(AmountExt::Milli(1, 2)));
}

#[test]
fn amount_grammar_errors() {
    assert_eq!(AmountExt::from_str("abc"), Err(AmountParseError));
    assert_eq!(AmountExt::from_str(""), Err(AmountParseError));
    assert_eq!(AmountExt::from_str("any more"), Err(AmountParseError));
    assert_eq!(AmountExt::from_str(" 12"), Err(AmountParseError));
    assert_eq!(AmountExt::from_str("18446744073709551616"), Err(AmountParseError));
    assert_eq!(AmountExt::from_str("1.65536"), Err(AmountParseError));
    assert_eq!(AmountExt::from_str(".5"), Err(AmountParseError));
    assert_eq!(AmountExt::from_str("5."), Err(AmountParseError));
    assert_eq!(AmountExt::from_str("-5"), Err(AmountParseError));
}

#[test]
fn amount_atomic_value() {
    assert_eq!(AmountExt::Any.atomic_value(), None);
    assert_eq!(AmountExt::Normal(42).atomic_value(), Some(42));
    assert_eq!(AmountExt::Milli(1, 2).atomic_value(), None);
    assert_eq!(AmountExt::default(), AmountExt::Any);
}

#[test]
fn recurrent_steps() {
    let mut r = Recurrent::Months(3);
    assert_eq!(r.iter(), Recurrent::Months(3));
    assert_eq!(r.next(), Some(Recurrent::Months(3)));
    assert_eq!(r.next(), Some(Recurrent::Months(3)));
    let mut n = Recurrent::default();
    assert_eq!(n, Recurrent::NonRecurrent);
    assert_eq!(n.next(), None);
}

#[test]
fn quantity_default() {
    assert_eq!(
        Quantity::default(),
        Quantity {
            min: 0,
            max: None,
            default: 1
        }
    );
}

#[test]
fn currency_code() {
    assert_eq!(Iso4217::from_str("USD"), Ok(Iso4217(b'U', b'S', b'D')));
    assert_eq!(Iso4217::from_str("US"), Err(Iso4217Error::WrongLen));
    assert_eq!(Iso4217::from_str("EURO"), Err(Iso4217Error::WrongLen));
}

#[test]
fn network_of_chain() {
    assert_eq!(Network::try_from(&Chain::Mainnet), Ok(Network::Mainnet));
    assert_eq!(Network::try_from(&Chain::Testnet3), Ok(Network::Testnet3));
    assert_eq!(
        Network::try_from(&Chain::Regtest([1; 32])),
        Ok(Network::Regtest)
    );
    assert_eq!(Network::try_from(&Chain::Signet), Ok(Network::Signet));
    assert_eq!(Network::try_from(&Chain::LiquidV1), Ok(Network::LiquidV1));
    assert_eq!(
        Network::try_from(&Chain::SignetCustom([2; 32])),
        Err(UnsupportedChain)
    );
}

#[test]
fn endpoint_rpc() {
    match ConsignmentEndpoint::from_str("rgbhttpjsonrpc:http://example.com:3000") {
        Ok(ConsignmentEndpoint::RgbHttpJsonRpc(url)) => {
            assert_eq!(url, "http://example.com:3000")
        }
        other => panic!("unexpected {:?}", other),
    }
}

#[test]
fn endpoint_errors() {
    assert!(matches!(
        ConsignmentEndpoint::from_str("ftp:somewhere"),
        Err(ConsignmentEndpointParseError)
    ));
    assert!(matches!(
        ConsignmentEndpoint::from_str("no scheme"),
        Err(ConsignmentEndpointParseError)
    ));
    assert!(matches!(
        ConsignmentEndpoint::from_str("storm:not a node"),
        Err(ConsignmentEndpointParseError)
    ));
    let no_port = "storm:022e58afe51f9ed8ad3cc7897f634d881fdbe49a81564629ded8156bebd2ffd1af@127.0.0.1";
    assert!(matches!(
        ConsignmentEndpoint::from_str(no_port),
        Err(ConsignmentEndpointParseError)
    ));
}

#[test]
fn endpoint_storm() {
    let text = "storm:022e58afe51f9ed8ad3cc7897f634d881fdbe49a81564629ded8156bebd2ffd1af@127.0.0.1:9735";
    match ConsignmentEndpoint::from_str(text) {
        Ok(ConsignmentEndpoint::Storm(addr)) => {
            assert!(addr.contains("022e58afe51f9ed8ad3cc7897f634d881fdbe49a81564629ded8156bebd2ffd1af"))
        }
        other => panic!("unexpected {:?}", other),
    }
}

#[test]
fn quantity_text() {
    assert_eq!(Quantity::default().to_string(), "1 items");
    let q = Quantity {
        min: 0,
        max: Some(5),
        default: 2,
    };
    assert_eq!(q.to_string(), "2 items (or any amount up to 5)");
    let q = Quantity {
        min: 3,
        max: Some(19),
        default: 10,
    };
    assert_eq!(q.to_string(), "10 items (or from 3 to 19)");
    let q = Quantity {
        min: 4,
        max: None,
        default: 4294967295,
    };
    assert_eq!(q.to_string(), "4294967295 items (or any amount above 4)");
}

#[test]
fn format_names() {
    assert_eq!(Format::from_str("JSON "), Ok(Format::Json));
    assert_eq!(Format::from_str("bech32"), Ok(Format::Bech32m));
    assert_eq!(Format::from_str("\tHex"), Ok(Format::Hexadecimal));
    assert_eq!(Format::from_str("bin"), Ok(Format::Raw));
    assert_eq!(Format::from_str("raw"), Ok(Format::Raw));
    assert_eq!(Format::from_str("base58"), Ok(Format::Base58));
    assert_eq!(Format::from_str("xml"), Err(UnknownFormat));
    assert_eq!(Format::from_str("ba se58"), Err(UnknownFormat));
    assert_eq!(Format::Bech32m.name(), "bech32");
    assert_eq!(Format::Hexadecimal.name(), "hex");
    for f in [
        Format::Debug,
        Format::Bech32m,
        Format::Base58,
        Format::Base64,
        Format::Yaml,
        Format::Json,
        Format::Hexadecimal,
        Format::Rust,
        Format::Raw,
    ] {
        assert_eq!(Format::from_str(f.name()), Ok(f));
    }
}
