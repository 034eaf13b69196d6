use bech32::ToBase32;
use invoice::invoice::classify_with;
use invoice::{
    AmountExt, AssetClass, Beneficiary, BeneficiaryParseError, Chain, ConsignmentEndpoint,
    CurrencyData, DecodeError, Details, Invoice, Iso4217, LnAddress, LnPathHint, Network,
    Quantity, Recurrent, TextParseError,
};

fn mainnet_native() -> Vec<u8> {
    let mut v =
        hex_bytes("000000000019d6689c085ae165831e934ff763ae46a2a6c172b3f1b60a8ce26f");
    v.reverse();
    v
}

fn testnet_native() -> Vec<u8> {
    let mut v =
        hex_bytes("000000000933ea01ad0ee984209779baaec3ced90fa3f408719526f8d77f4943");
    v.reverse();
    v
}

fn hex_bytes(s: &str) -> Vec<u8> {
    (0..s.len() / 2)
        .map(|i| u8::from_str_radix(&s[2 * i..2 * i + 2], 16).unwrap())
        .collect()
}

fn sample() -> Invoice {
    Invoice::new(
        Beneficiary::Address("bc1qar0srrr7xfkvy5l643lydnw9re59gtzzwf5mdq".to_string()),
        Some(1000),
        None,
    )
}

fn rich() -> Invoice {
    let mut inv = sample();
    inv.set_recurrent(Recurrent::Seconds(3600));
    inv.set_expiry(1_700_000_000);
    inv.set_quantity(Quantity {
        min: 1,
        max: Some(10),
        default: 2,
    });
    inv.set_currency_requirement(CurrencyData {
        iso4217: Iso4217(b'U', b'S', b'D'),
        coins: 12,
        fractions: 50,
        price_provider: "https://prices.example".to_string(),
    });
    inv.set_merchant("Shop".to_string());
    inv.set_purpose("Coffee ☕".to_string());
    inv.set_details(Details {
        commitment: vec![9; 32],
        source: "https://details.example".to_string(),
    });
    inv.add_consignment_endpoint(ConsignmentEndpoint::RgbHttpJsonRpc(
        "http://node.example".to_string(),
    ));
    inv.set_network(Network::Testnet3);
    inv.set_signature(vec![2; 33], vec![7; 64]);
    inv
}

fn lightning() -> Invoice {
    Invoice::new(
        Beneficiary::Bolt(LnAddress {
            node_id: vec![3; 33],
            features: vec![1, 2],
            lock: vec![5; 32],
            min_final_cltv_expiry: Some(144),
            path_hints: vec![LnPathHint {
                node_id: vec![4; 33],
                short_channel_id: 77,
                fee_base_msat: 1,
                fee_proportional_millionths: 2,
                cltv_expiry_delta: 40,
            }],
        }),
        None,
        Some(vec![8; 32]),
    )
}

#[test]
fn new_invoice_defaults() {
    let inv = sample();
    assert_eq!(inv.version(), 0);
    assert_eq!(inv.amount(), AmountExt::Normal(1000));
    assert!(inv.alt_beneficiaries().is_empty());
    assert_eq!(inv.asset(), &None);
    assert_eq!(inv.expiry(), None);
    assert_eq!(inv.recurrent(), Recurrent::NonRecurrent);
    assert_eq!(inv.quantity(), None);
    assert!(inv.currency_requirement().is_none());
    assert_eq!(inv.merchant(), &None);
    assert_eq!(inv.purpose(), &None);
    assert!(inv.details().is_none());
    assert_eq!(inv.signature(), &None);
    assert!(inv.consignment_endpoints().is_empty());
    assert_eq!(inv.network(), None);
    assert!(inv.extension_fields().is_empty());
    let any = Invoice::new(Beneficiary::Unknown(vec![1]), None, None);
    assert_eq!(any.amount(), AmountExt::Any);
}

#[test]
fn setters_report_change_once() {
    let mut inv = sample();
    assert!(inv.set_amount(AmountExt::Milli(1, 5)));
    assert!(!inv.set_amount(AmountExt::Milli(1, 5)));
    assert!(inv.set_recurrent(Recurrent::Years(1)));
    assert!(!inv.set_recurrent(Recurrent::Years(1)));
    assert!(inv.set_expiry(5));
    assert!(!inv.set_expiry(5));
    assert!(inv.set_no_expiry());
    assert!(!inv.set_no_expiry());
    let q = Quantity::default();
    assert!(inv.set_quantity(q));
    assert!(!inv.set_quantity(q));
    assert!(inv.remove_quantity());
    assert!(!inv.remove_quantity());
    assert!(inv.set_merchant("M".to_string()));
    assert!(!inv.set_merchant("M".to_string()));
    assert!(inv.remove_merchant());
    assert!(!inv.remove_merchant());
    assert!(inv.set_purpose("P".to_string()));
    assert!(!inv.set_purpose("P".to_string()));
    assert!(inv.remove_purpose());
    assert!(!inv.remove_purpose());
    let details = Details {
        commitment: vec![1; 32],
        source: "s".to_string(),
    };
    assert!(inv.set_details(details.clone()));
    assert!(!inv.set_details(details));
    assert!(inv.remove_details());
    assert!(!inv.remove_details());
    let c = CurrencyData {
        iso4217: Iso4217(b'E', b'U', b'R'),
        coins: 1,
        fractions: 0,
        price_provider: "p".to_string(),
    };
    assert!(inv.set_currency_requirement(c.clone()));
    assert!(!inv.set_currency_requirement(c));
    assert!(inv.remove_currency_requirement());
    assert!(!inv.remove_currency_requirement());
    assert!(inv.set_network(Network::Signet));
    assert!(!inv.set_network(Network::Signet));
    let e = ConsignmentEndpoint::RgbHttpJsonRpc("u".to_string());
    assert!(inv.add_consignment_endpoint(e.clone()));
    assert!(!inv.add_consignment_endpoint(e));
    assert_eq!(inv.consignment_endpoints().len(), 1);
}

#[test]
fn empty_text_is_no_text() {
    let mut inv = sample();
    assert!(!inv.set_merchant(String::new()));
    assert_eq!(inv.merchant(), &None);
    assert!(inv.set_purpose("x".to_string()));
    assert!(inv.set_purpose(String::new()));
    assert_eq!(inv.purpose(), &None);
}

#[test]
fn signed_field_change_clears_signature() {
    let fresh = || {
        let mut inv = sample();
        inv.set_signature(vec![2; 33], vec![1; 64]);
        inv
    };
    let mut inv = fresh();
    inv.set_amount(AmountExt::Normal(1));
    assert_eq!(inv.signature(), &None);
    let mut inv = fresh();
    inv.set_recurrent(Recurrent::Months(1));
    assert_eq!(inv.signature(), &None);
    let mut inv = fresh();
    inv.set_expiry(9);
    assert_eq!(inv.signature(), &None);
    let mut inv = fresh();
    inv.set_quantity(Quantity::default());
    assert_eq!(inv.signature(), &None);
    let mut inv = fresh();
    inv.set_merchant("m".to_string());
    assert_eq!(inv.signature(), &None);
    let mut inv = fresh();
    inv.set_purpose("p".to_string());
    assert_eq!(inv.signature(), &None);
    let mut inv = fresh();
    inv.set_details(Details {
        commitment: vec![],
        source: String::new(),
    });
    assert_eq!(inv.signature(), &None);
    let mut inv = fresh();
    inv.set_currency_requirement(CurrencyData {
        iso4217: Iso4217(b'A', b'B', b'C'),
        coins: 0,
        fractions: 0,
        price_provider: String::new(),
    });
    assert_eq!(inv.signature(), &None);
    let mut inv = fresh();
    assert!(!inv.set_amount(AmountExt::Normal(1000)));
    assert!(inv.signature().is_some());
    inv.remove_signature();
    assert_eq!(inv.signature(), &None);
}

#[test]
fn network_and_endpoints_keep_signature() {
    let mut inv = sample();
    inv.set_signature(vec![2; 33], vec![1; 64]);
    inv.set_network(Network::LiquidV1);
    assert!(inv.signature().is_some());
    inv.add_consignment_endpoint(ConsignmentEndpoint::Storm("x".to_string()));
    assert!(inv.signature().is_some());
}

#[test]
fn beneficiaries_single() {
    let inv = rich();
    let mut it = inv.beneficiaries();
    assert!(matches!(it.next(), Some(Beneficiary::Address(_))));
    assert!(it.next().is_none());
    assert!(it.next().is_none());
}

#[test]
fn beneficiaries_primary_then_alternatives() {
    // An invoice with alternatives is only built by decoding: encode one by
    // hand from the layout (primary P, alternatives A and B).
    let p = Invoice::new(Beneficiary::Unknown(vec![0xaa]), None, None).encode();
    let mut bytes = p.clone();
    let a = Invoice::new(Beneficiary::Unknown(vec![0xbb]), None, None).encode();
    let b = Invoice::new(Beneficiary::Psbt(vec![0xcc, 0xdd]), None, None).encode();
    // the encoding of a beneficiary follows the version and amount bytes
    let ben_a = &a[2..];
    let ben_b = &b[2..];
    let mut payload = Vec::new();
    payload.extend_from_slice(&2u64.to_le_bytes());
    payload.extend_from_slice(ben_a);
    payload.extend_from_slice(ben_b);
    bytes.extend_from_slice(&1u16.to_le_bytes());
    bytes.extend_from_slice(&(payload.len() as u64).to_le_bytes());
    bytes.extend_from_slice(&payload);
    let inv = Invoice::decode(&bytes).expect("valid encoding");
    for _ in 0..2 {
        let mut it = inv.beneficiaries();
        match it.next() {
            Some(Beneficiary::Unknown(x)) => assert_eq!(x, &vec![0xaa]),
            other => panic!("unexpected {:?}", other),
        }
        match it.next() {
            Some(Beneficiary::Unknown(x)) => assert_eq!(x, &vec![0xbb]),
            other => panic!("unexpected {:?}", other),
        }
        match it.next() {
            Some(Beneficiary::Psbt(x)) => assert_eq!(x, &vec![0xcc, 0xdd]),
            other => panic!("unexpected {:?}", other),
        }
        assert!(it.next().is_none());
    }
    assert_eq!(inv.encode(), bytes);
}

#[test]
fn binary_round_trip() {
    for inv in [sample(), rich(), lightning()] {
        let bytes = inv.encode();
        let back = Invoice::decode(&bytes).expect("decodes");
        assert_eq!(back.encode(), bytes);
        assert_eq!(back.amount(), inv.amount());
        assert_eq!(back.merchant(), inv.merchant());
        assert_eq!(back.purpose(), inv.purpose());
        assert_eq!(back.expiry(), inv.expiry());
        assert_eq!(back.quantity(), inv.quantity());
        assert_eq!(back.network(), inv.network());
        assert_eq!(back.signature(), inv.signature());
        assert_eq!(back.asset(), inv.asset());
    }
}

#[test]
fn binary_layout_of_simple_invoice() {
    let inv = Invoice::new(Beneficiary::Unknown(vec![0xab]), Some(5), None);
    let mut expected = vec![0u8, 1];
    expected.extend_from_slice(&5u64.to_le_bytes());
    expected.push(5);
    expected.extend_from_slice(&1u64.to_le_bytes());
    expected.push(0xab);
    assert_eq!(inv.encode(), expected);
}

#[test]
fn extension_records_survive() {
    let mut bytes = rich().encode();
    for (tag, data) in [(0x20u16, vec![1u8, 2, 3]), (0x1234u16, vec![])] {
        bytes.extend_from_slice(&tag.to_le_bytes());
        bytes.extend_from_slice(&(data.len() as u64).to_le_bytes());
        bytes.extend_from_slice(&data);
    }
    let inv = Invoice::decode(&bytes).expect("decodes");
    assert_eq!(
        inv.extension_fields(),
        &vec![(0x20u16, vec![1u8, 2, 3]), (0x1234u16, vec![])]
    );
    assert_eq!(inv.encode(), bytes);
    assert_eq!(inv.merchant(), &Some("Shop".to_string()));
}

#[test]
fn decode_rejects_bad_bytes() {
    let bytes = rich().encode();
    assert!(matches!(Invoice::decode(&bytes[..bytes.len() - 1].to_vec()), Err(DecodeError)));
    let mut extra = bytes.clone();
    extra.push(0);
    assert_eq!(Invoice::decode(&extra).err(), Some(DecodeError));
    assert_eq!(Invoice::decode(&vec![]).err(), Some(DecodeError));
    // a known tag out of order
    let mut wrong = sample().encode();
    wrong.extend_from_slice(&5u16.to_le_bytes());
    wrong.extend_from_slice(&1u64.to_le_bytes());
    wrong.push(b'm');
    wrong.extend_from_slice(&3u16.to_le_bytes());
    wrong.extend_from_slice(&8u64.to_le_bytes());
    wrong.extend_from_slice(&1u64.to_le_bytes());
    assert_eq!(Invoice::decode(&wrong).err(), Some(DecodeError));
    // an empty merchant record is not canonical
    let mut empty = sample().encode();
    empty.extend_from_slice(&5u16.to_le_bytes());
    empty.extend_from_slice(&0u64.to_le_bytes());
    assert_eq!(Invoice::decode(&empty).err(), Some(DecodeError));
    // extension records must come in increasing tag order
    let mut unordered = sample().encode();
    for tag in [0x30u16, 0x20u16] {
        unordered.extend_from_slice(&tag.to_le_bytes());
        unordered.extend_from_slice(&0u64.to_le_bytes());
    }
    assert_eq!(Invoice::decode(&unordered).err(), Some(DecodeError));
}

#[test]
fn text_round_trip() {
    for inv in [sample(), rich(), lightning()] {
        let text = inv.to_string();
        assert!(text.starts_with("i1"));
        let back = Invoice::from_str(&text).expect("parses");
        assert_eq!(back.encode(), inv.encode());
        assert_eq!(back.to_string(), text);
    }
}

#[test]
fn text_errors() {
    assert_eq!(Invoice::from_str("not bech32").err(), Some(TextParseError::Bech32));
    let other = bech32::encode("z", vec![1u8, 2].to_base32(), bech32::Variant::Bech32m).unwrap();
    assert_eq!(Invoice::from_str(&other).err(), Some(TextParseError::WrongPrefix));
    let legacy = bech32::encode("i", vec![1u8, 2].to_base32(), bech32::Variant::Bech32).unwrap();
    assert_eq!(Invoice::from_str(&legacy).err(), Some(TextParseError::WrongVariant));
    let empty = bech32::encode("i", Vec::<u8>::new().to_base32(), bech32::Variant::Bech32m).unwrap();
    assert_eq!(Invoice::from_str(&empty).err(), Some(TextParseError::NoEncodingPrefix));
    let unknown = bech32::encode("i", vec![2u8, 0].to_base32(), bech32::Variant::Bech32m).unwrap();
    assert_eq!(
        Invoice::from_str(&unknown).err(),
        Some(TextParseError::UnknownRawDataEncoding)
    );
    let broken = bech32::encode("i", vec![1u8, 0xff, 0xff].to_base32(), bech32::Variant::Bech32m).unwrap();
    assert_eq!(Invoice::from_str(&broken).err(), Some(TextParseError::Inflate));
    let mut junk = vec![1u8];
    junk.extend(deflate::deflate_bytes(&[9, 9, 9]));
    let data = bech32::encode("i", junk.to_base32(), bech32::Variant::Bech32m).unwrap();
    assert_eq!(Invoice::from_str(&data).err(), Some(TextParseError::Data));
}

#[test]
fn order_follows_text() {
    let a = sample();
    let b = rich();
    let c = lightning();
    for (x, y) in [(&a, &b), (&b, &a), (&a, &c), (&c, &b), (&a, &a)] {
        assert_eq!(x.lt(y), x.to_string() < y.to_string());
        assert_eq!(x.cmp(y), x.to_string().cmp(&y.to_string()));
    }
    assert_eq!(a.cmp(&a), std::cmp::Ordering::Equal);
}

#[test]
fn compare_texts() {
    assert_eq!(invoice::compare_text("abc", "abd"), std::cmp::Ordering::Less);
    assert_eq!(invoice::compare_text("ab", "abc"), std::cmp::Ordering::Less);
    assert_eq!(invoice::compare_text("b", "abc"), std::cmp::Ordering::Greater);
    assert_eq!(invoice::compare_text("", ""), std::cmp::Ordering::Equal);
}

#[test]
fn signature_hash_is_sha256_of_unsigned_encoding() {
    let mut inv = rich();
    let h = inv.signature_hash();
    assert_eq!(h.len(), 32);
    inv.remove_signature();
    let expected = <bitcoin::hashes::sha256::Hash as bitcoin::hashes::Hash>::into_inner(
        <bitcoin::hashes::sha256::Hash as bitcoin::hashes::Hash>::hash(&inv.encode()),
    )
    .to_vec();
    assert_eq!(h, expected);
    inv.set_signature(vec![1; 33], vec![1; 64]);
    assert_eq!(inv.signature_hash(), h);
    inv.set_amount(AmountExt::Any);
    assert_ne!(inv.signature_hash(), h);
}

#[test]
fn classify_table() {
    let main = mainnet_native();
    let other = vec![7u8; 32];
    let mut inv = sample();
    assert!(matches!(inv.classify_asset(Some(Chain::Mainnet)), AssetClass::Native));
    assert!(matches!(
        inv.classify_asset(Some(Chain::Testnet3)),
        AssetClass::InvalidNativeChain
    ));
    assert!(matches!(inv.classify_asset(None), AssetClass::InvalidNativeChain));
    inv = Invoice::new(Beneficiary::Unknown(vec![]), None, Some(main.clone()));
    assert!(matches!(inv.classify_asset(Some(Chain::Mainnet)), AssetClass::Native));
    assert!(matches!(
        inv.classify_asset(Some(Chain::Testnet3)),
        AssetClass::InvalidNativeChain
    ));
    inv = Invoice::new(Beneficiary::Unknown(vec![]), None, Some(other.clone()));
    for chain in [Some(Chain::Mainnet), Some(Chain::Signet), None] {
        match inv.classify_asset(chain) {
            AssetClass::Rgb(id) => assert_eq!(id, other),
            c => panic!("unexpected {:?}", c),
        }
    }
    assert_eq!(inv.rgb_asset(), Some(other.clone()));
    assert!(!inv.is_rgb());
    let native = Invoice::new(Beneficiary::Unknown(vec![]), None, Some(main.clone()));
    assert_eq!(native.rgb_asset(), None);
    assert!(native.is_rgb());
}

#[test]
fn classify_with_given_ids() {
    let known = vec![vec![1u8], vec![2u8]];
    assert!(matches!(classify_with(&None, true, &None, &known), AssetClass::Native));
    assert!(matches!(
        classify_with(&None, false, &Some(vec![1]), &known),
        AssetClass::InvalidNativeChain
    ));
    assert!(matches!(
        classify_with(&Some(vec![2]), false, &Some(vec![2]), &known),
        AssetClass::Native
    ));
    assert!(matches!(
        classify_with(&Some(vec![2]), false, &Some(vec![1]), &known),
        AssetClass::InvalidNativeChain
    ));
    match classify_with(&Some(vec![3]), true, &Some(vec![1]), &known) {
        AssetClass::Rgb(id) => assert_eq!(id, vec![3]),
        c => panic!("unexpected {:?}", c),
    }
}

#[test]
fn descriptor_invoice_names_chain_asset() {
    let d = "wpkh(02f9308a019258c31049344f85f89d5229b531c845836f99b08601f113bce036f9)";
    let main = Invoice::with_descriptor(d, Some(5), &Chain::Mainnet).expect("descriptor");
    assert_eq!(main.asset(), &None);
    let test = Invoice::with_descriptor(d, Some(5), &Chain::Testnet3).expect("descriptor");
    assert_eq!(test.asset(), &Some(testnet_native()));
    assert!(matches!(test.beneficiary(), Beneficiary::Descriptor(_)));
    let regtest = Invoice::with_descriptor(d, None, &Chain::Regtest([3; 32])).expect("descriptor");
    assert_eq!(regtest.asset(), &Some(vec![3u8; 32]));
    assert!(Invoice::with_descriptor("not a descriptor", None, &Chain::Mainnet).is_none());
}

#[test]
fn chain_confusion() {
    let inv = Invoice::new(Beneficiary::Unknown(vec![]), None, Some(testnet_native()));
    assert!(matches!(
        inv.classify_asset(Some(Chain::Mainnet)),
        AssetClass::InvalidNativeChain
    ));
    assert!(matches!(inv.classify_asset(Some(Chain::Testnet3)), AssetClass::Native));
}

#[test]
fn address_invoice() {
    let main = Invoice::with_address("bc1qar0srrr7xfkvy5l643lydnw9re59gtzzwf5mdq", None)
        .expect("address");
    assert_eq!(main.asset(), &None);
    let test = Invoice::with_address("tb1qw508d6qejxtdg4y5r3zarvary0c5xw7kxpjzsx", Some(3))
        .expect("address");
    assert_eq!(test.asset(), &Some(testnet_native()));
    assert!(Invoice::with_address("nope", None).is_none());
}

#[test]
fn beneficiary_grammars() {
    match Beneficiary::from_str("bc1qar0srrr7xfkvy5l643lydnw9re59gtzzwf5mdq") {
        Ok(Beneficiary::Address(a)) => assert_eq!(a, "bc1qar0srrr7xfkvy5l643lydnw9re59gtzzwf5mdq"),
        other => panic!("unexpected {:?}", other),
    }
    let d = "wpkh(02f9308a019258c31049344f85f89d5229b531c845836f99b08601f113bce036f9)";
    assert!(matches!(Beneficiary::from_str(d), Ok(Beneficiary::Descriptor(_))));
    assert!(matches!(Beneficiary::from_str("nothing"), Err(BeneficiaryParseError)));
    let seal = bp::seals::txout::blind::ConcealedSeal::default().to_string();
    match Beneficiary::from_str(&seal) {
        Ok(Beneficiary::BlindUtxo(h)) => assert_eq!(h, vec![0u8; 32]),
        other => panic!("unexpected {:?}", other),
    }
}

#[test]
fn beneficiary_priority() {
    let r = Beneficiary::from_parsed(Some("a".to_string()), Some(vec![1]), Some("d".to_string()));
    assert!(matches!(r, Ok(Beneficiary::Address(_))));
    let r = Beneficiary::from_parsed(None, Some(vec![1]), Some("d".to_string()));
    assert!(matches!(r, Ok(Beneficiary::BlindUtxo(_))));
    let r = Beneficiary::from_parsed(None, None, Some("d".to_string()));
    assert!(matches!(r, Ok(Beneficiary::Descriptor(_))));
    assert!(matches!(Beneficiary::from_parsed(None, None, None), Err(BeneficiaryParseError)));
}
