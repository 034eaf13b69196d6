use vstd::prelude::*;

use lnpbp::chain::Chain as LnpbpChain;

use vstd::utf8::{decode_utf8, valid_utf8};

use crate::types::{Chain, Network};

verus! {

/// Hash of the genesis block of bitcoin mainnet, in its internal byte order.
pub open spec fn genesis_mainnet() -> Seq<u8> {
    seq![
        0x6fu8, 0xe2, 0x8c, 0x0a, 0xb6, 0xf1, 0xb3, 0x72,
        0xc1, 0xa6, 0xa2, 0x46, 0xae, 0x63, 0xf7, 0x4f,
        0x93, 0x1e, 0x83, 0x65, 0xe1, 0x5a, 0x08, 0x9c,
        0x68, 0xd6, 0x19, 0x00, 0x00, 0x00, 0x00, 0x00,
    ]
}

/// Hash of the genesis block of bitcoin testnet v3.
pub open spec fn genesis_testnet() -> Seq<u8> {
    seq![
        0x43u8, 0x49, 0x7f, 0xd7, 0xf8, 0x26, 0x95, 0x71,
        0x08, 0xf4, 0xa3, 0x0f, 0xd9, 0xce, 0xc3, 0xae,
        0xba, 0x79, 0x97, 0x20, 0x84, 0xe9, 0x0e, 0xad,
        0x01, 0xea, 0x33, 0x09, 0x00, 0x00, 0x00, 0x00,
    ]
}

/// Hash of the genesis block of bitcoin regtest networks.
pub open spec fn genesis_regtest() -> Seq<u8> {
    seq![
        0x06u8, 0x22, 0x6e, 0x46, 0x11, 0x1a, 0x0b, 0x59,
        0xca, 0xaf, 0x12, 0x60, 0x43, 0xeb, 0x5b, 0xbf,
        0x28, 0xc3, 0x4f, 0x3a, 0x5e, 0x33, 0x2a, 0x1f,
        0xc7, 0xb2, 0xb7, 0x3c, 0xf1, 0x88, 0x91, 0x0f,
    ]
}

/// Hash of the genesis block of the default bitcoin signet.
pub open spec fn genesis_signet() -> Seq<u8> {
    seq![
        0xf6u8, 0x1e, 0xee, 0x3b, 0x63, 0xa3, 0x80, 0xa4,
        0x77, 0xa0, 0x63, 0xaf, 0x32, 0xb2, 0xbb, 0xc9,
        0x7c, 0x9f, 0xf9, 0xf0, 0x1f, 0x2c, 0x42, 0x25,
        0xe9, 0x73, 0x98, 0x81, 0x08, 0x00, 0x00, 0x00,
    ]
}

/// Hash of the genesis block of the Liquid V1 sidechain.
pub open spec fn genesis_liquid_v1() -> Seq<u8> {
    seq![
        0x14u8, 0x66, 0x27, 0x58, 0x36, 0x22, 0x0d, 0xb2,
        0x94, 0x4c, 0xa0, 0x59, 0xa3, 0xa1, 0x0e, 0xf6,
        0xfd, 0x2e, 0xa6, 0x84, 0xb0, 0x68, 0x8d, 0x2c,
        0x37, 0x92, 0x96, 0x88, 0x8a, 0x20, 0x60, 0x03,
    ]
}

/// The id of the native asset of a chain: the hash of its genesis block.
pub open spec fn native_asset_of(chain: Chain) -> Seq<u8> {
    match chain {
        Chain::Mainnet => genesis_mainnet(),
        Chain::Testnet3 => genesis_testnet(),
        Chain::Regtest(h) => h@,
        Chain::Signet => genesis_signet(),
        Chain::SignetCustom(h) => h@,
        Chain::LiquidV1 => genesis_liquid_v1(),
    }
}

/// Relies on lnpbp's `Chain::native_asset` (`AssetId::native`): the genesis
/// hash of the chain, which for the standard chains is the constant of
/// lnpbp's registry and for the others the hash the chain is given with.
#[verifier::external_body]
pub(crate) fn native_asset(chain: &Chain) -> (r: Vec<u8>)
    ensures
        r@ == native_asset_of(*chain),
{
    let c = match chain {
        Chain::Mainnet => LnpbpChain::Mainnet,
        Chain::Testnet3 => LnpbpChain::Testnet3,
        Chain::Regtest(h) => LnpbpChain::Regtest(bitcoin::hashes::Hash::from_inner(*h)),
        Chain::Signet => LnpbpChain::Signet,
        Chain::SignetCustom(h) => LnpbpChain::SignetCustom(bitcoin::hashes::Hash::from_inner(*h)),
        Chain::LiquidV1 => LnpbpChain::LiquidV1,
    };
    bitcoin::hashes::Hash::into_inner(c.native_asset()).to_vec()
}

/// Relies on `String::from_utf8`: it accepts exactly the valid UTF-8 byte
/// strings, and decodes them.
#[verifier::external_body]
pub(crate) fn text_from_utf8(b: Vec<u8>) -> (r: Option<String>)
    ensures
        r is Some <==> valid_utf8(b@),
        r matches Some(s) ==> s@ == decode_utf8(b@),
{
    String::from_utf8(b).ok()
}

/// A bech32 human-readable part of lowercase letters, which `bech32::encode`
/// accepts.
pub open spec fn lower_hrp(h: Seq<char>) -> bool {
    1 <= h.len() <= 83 && forall|i: int| 0 <= i < h.len() ==> 'a' <= #[trigger] h[i] <= 'z'
}

pub open spec fn bytes_view_opt(o: Option<Vec<u8>>) -> Option<Seq<u8>> {
    match o {
        Some(x) => Some(x@),
        None => None,
    }
}

pub open spec fn parts_view(o: Option<(String, bool, Vec<u8>)>) -> Option<(Seq<char>, bool, Seq<u8>)> {
    match o {
        Some(p) => Some((p.0@, p.1, p.2@)),
        None => None,
    }
}

/// DEFLATE stream that deflate's best compression makes of some bytes.
pub uninterp spec fn deflated(data: Seq<u8>) -> Seq<u8>;

/// What inflate gives back from a DEFLATE stream, if it is one.
pub uninterp spec fn inflated(data: Seq<u8>) -> Option<Seq<u8>>;

/// Bech32m string of a human-readable part and bytes.
pub uninterp spec fn bech32m_text(hrp: Seq<char>, data: Seq<u8>) -> Seq<char>;

/// What bech32 reads from a string: its (lowercased) human-readable part,
/// whether the checksum is of the Bech32m variant, and the bytes.
pub uninterp spec fn bech32_parts(s: Seq<char>) -> Option<(Seq<char>, bool, Seq<u8>)>;

/// Relies on deflate's `deflate_bytes_conf` at the best compression level; its
/// output depends on the input alone.
#[verifier::external_body]
pub(crate) fn deflate_best(data: &Vec<u8>) -> (r: Vec<u8>)
    ensures
        r@ == deflated(data@),
{
    deflate::deflate_bytes_conf(data, deflate::Compression::Best)
}

/// Relies on inflate's `inflate_bytes`: it decompresses a DEFLATE stream, so
/// a stream that deflate made gives back the bytes it was made of.
#[verifier::external_body]
pub(crate) fn inflate(data: &Vec<u8>) -> (r: Option<Vec<u8>>)
    ensures
        bytes_view_opt(r) == inflated(data@),
        forall|x: Seq<u8>| #[trigger] deflated(x) == data@ ==> bytes_view_opt(r) == Some(x),
{
    inflate::inflate_bytes(data).ok()
}

/// Relies on bech32's `encode` with the Bech32m variant, which fails only on
/// an invalid human-readable part.
#[verifier::external_body]
pub(crate) fn bech32m_encode(hrp: &str, data: &Vec<u8>) -> (r: String)
    requires
        lower_hrp(hrp@),
    ensures
        r@ == bech32m_text(hrp@, data@),
{
    bech32::encode(hrp, bech32::ToBase32::to_base32(data), bech32::Variant::Bech32m)
        .unwrap_or_default()
}

/// Relies on bech32's `decode` and `FromBase32`: a string that `encode` made
/// of a lowercase human-readable part and bytes gives them back, with the
/// Bech32m variant.
#[verifier::external_body]
pub(crate) fn bech32_decode(s: &str) -> (r: Option<(String, bool, Vec<u8>)>)
    ensures
        parts_view(r) == bech32_parts(s@),
        forall|h: Seq<char>, d: Seq<u8>|
            lower_hrp(h) && #[trigger] bech32m_text(h, d) == s@ ==> parts_view(r) == Some((h, true, d)),
{
    match bech32::decode(s) {
        Ok((hrp, data, variant)) => {
            let is_m = match variant {
                bech32::Variant::Bech32 => false,
                bech32::Variant::Bech32m => true,
            };
            match <Vec<u8> as bech32::FromBase32>::from_base32(&data) {
                Ok(bytes) => Some((hrp, is_m, bytes)),
                Err(_) => None,
            }
        },
        Err(_) => None,
    }
}

/// The canonical text form and network of a bitcoin address, if a string is
/// one.
pub uninterp spec fn address_of(s: Seq<char>) -> Option<(Seq<char>, Network)>;

/// Relies on bitcoin's `Address::from_str` and its `Display`; the network is
/// the address's own.
#[verifier::external_body]
pub(crate) fn parse_address(s: &str) -> (r: Option<(String, Network)>)
    ensures
        text_network_opt(r) == address_of(s@),
{
    match <bitcoin::Address as core::str::FromStr>::from_str(s) {
        Ok(a) => {
            let n = match a.network {
                bitcoin::Network::Bitcoin => Network::Mainnet,
                bitcoin::Network::Testnet => Network::Testnet3,
                bitcoin::Network::Signet => Network::Signet,
                bitcoin::Network::Regtest => Network::Regtest,
            };
            Some((a.to_string(), n))
        },
        Err(_) => None,
    }
}

pub open spec fn text_network_opt(o: Option<(String, Network)>) -> Option<(Seq<char>, Network)> {
    match o {
        Some(p) => Some((p.0@, p.1)),
        None => None,
    }
}

/// The 32 bytes of the concealed seal a string encodes, if it encodes one.
pub uninterp spec fn concealed_seal_of(s: Seq<char>) -> Option<Seq<u8>>;

/// Relies on bp-core's `ConcealedSeal::from_str` (a `txob` Bech32 string).
#[verifier::external_body]
pub(crate) fn parse_concealed_seal(s: &str) -> (r: Option<Vec<u8>>)
    ensures
        bytes_view_opt(r) == concealed_seal_of(s@),
{
    match <bp::seals::txout::blind::ConcealedSeal as core::str::FromStr>::from_str(s) {
        Ok(seal) => Some(seal[..].to_vec()),
        Err(_) => None,
    }
}

/// The canonical text form of an output descriptor, if a string is one.
pub uninterp spec fn descriptor_of(s: Seq<char>) -> Option<Seq<char>>;

/// Relies on miniscript's `Descriptor::<DescriptorPublicKey>::from_str` and
/// its `Display`.
#[verifier::external_body]
pub(crate) fn parse_descriptor(s: &str) -> (r: Option<String>)
    ensures
        text_view_opt(r) == descriptor_of(s@),
{
    match <miniscript::Descriptor<miniscript::DescriptorPublicKey> as core::str::FromStr>::from_str(s) {
        Ok(d) => Some(d.to_string()),
        Err(_) => None,
    }
}

pub open spec fn text_view_opt(o: Option<String>) -> Option<Seq<char>> {
    match o {
        Some(x) => Some(x@),
        None => None,
    }
}

/// The canonical text form of a node address, if a string is one.
pub uninterp spec fn node_addr_of(s: Seq<char>) -> Option<Seq<char>>;

/// Relies on internet2's `PartialNodeAddr::from_str` and its conversions to
/// a remote node address and to a local socket address (the two forms of
/// `NodeAddr`), and on `NodeAddr`'s `Display`. A text that neither conversion
/// takes is no node address.
#[verifier::external_body]
pub(crate) fn parse_node_addr(s: &str) -> (r: Option<String>)
    ensures
        text_view_opt(r) == node_addr_of(s@),
{
    let partial = match <internet2::PartialNodeAddr as core::str::FromStr>::from_str(s) {
        Ok(p) => p,
        Err(_) => return None,
    };
    if let Ok(remote) = internet2::RemoteNodeAddr::try_from(partial.clone()) {
        return Some(internet2::NodeAddr::Remote(remote).to_string());
    }
    match internet2::LocalSocketAddr::try_from(partial) {
        Ok(local) => Some(internet2::NodeAddr::Local(local).to_string()),
        Err(_) => None,
    }
}

/// The merkle node hash (SHA-256) of some bytes.
pub uninterp spec fn merkle_node_of(data: Seq<u8>) -> Seq<u8>;

/// Relies on commit_verify's `MerkleNode::hash`: 32 bytes that depend on the
/// input alone.
#[verifier::external_body]
pub(crate) fn merkle_node_hash(data: &Vec<u8>) -> (r: Vec<u8>)
    ensures
        r@ == merkle_node_of(data@),
        r@.len() == 32,
{
    let node = <commit_verify::merkle::MerkleNode as bitcoin::hashes::Hash>::hash(data);
    bitcoin::hashes::Hash::into_inner(node).to_vec()
}

} // verus!
