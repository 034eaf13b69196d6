use vstd::prelude::*;
use vstd::string::{StrSliceExecFns, StringSliceAdditionalSpecFns};

verus! {

/// Error when an RGB-only operation is attempted on a non-RGB invoice.
#[derive(Clone, Copy, Debug, PartialEq, Eq, Structural, PartialOrd, Ord, Hash)]
pub struct NotRgbInvoice;

/// Incorrect consignment endpoint format.
#[derive(Clone, Copy, Debug, PartialEq, Eq, Structural, PartialOrd, Ord, Hash)]
pub struct ConsignmentEndpointParseError;

/// Chain is not supported by the universal invoice.
#[derive(Clone, Copy, Debug, PartialEq, Eq, Structural, PartialOrd, Ord, Hash)]
pub struct UnsupportedChain;

/// Incorrect beneficiary format.
#[derive(Clone, Copy, Debug, PartialEq, Eq, Structural, PartialOrd, Ord, Hash)]
pub struct BeneficiaryParseError;

/// Incorrect amount format.
#[derive(Clone, Copy, Debug, PartialEq, Eq, Structural, PartialOrd, Ord, Hash)]
pub struct AmountParseError;

/// Errors of the three-letter currency code parser.
#[derive(Clone, Copy, Debug, PartialEq, Eq, Structural, PartialOrd, Ord, Hash)]
pub enum Iso4217Error {
    /// Wrong string length to parse ISO4217 data
    WrongLen,
}

/// Expected network of the payment.
#[derive(Clone, Copy, Debug, PartialEq, Eq, Structural, PartialOrd, Ord, Hash)]
pub enum Network {
    /// Bitcoin mainnet
    Mainnet,
    /// Bitcoin testnet version 3
    Testnet3,
    /// Bitcoin regtest network
    Regtest,
    /// Default bitcoin signet network
    Signet,
    /// Liquidv1 sidechain & network by Blockstream
    LiquidV1,
}

/// A chain, as far as the invoice logic reads it: the standard chains by
/// name, the others by the hash of their genesis block.
#[derive(Clone, Debug, PartialEq, Eq, Hash)]
pub enum Chain {
    Mainnet,
    Testnet3,
    Regtest([u8; 32]),
    Signet,
    SignetCustom([u8; 32]),
    LiquidV1,
}

impl Network {
    /// The network of a chain; chains outside the known set are refused.
    pub fn try_from(chain: &Chain) -> (r: Result<Network, UnsupportedChain>)
        ensures
            r == network_of_chain(*chain),
    {
        match chain {
            Chain::Mainnet => Ok(Network::Mainnet),
            Chain::Testnet3 => Ok(Network::Testnet3),
            Chain::Regtest(_) => Ok(Network::Regtest),
            Chain::Signet => Ok(Network::Signet),
            Chain::LiquidV1 => Ok(Network::LiquidV1),
            _ => Err(UnsupportedChain),
        }
    }
}

pub open spec fn network_of_chain(chain: Chain) -> Result<Network, UnsupportedChain> {
    match chain {
        Chain::Mainnet => Ok(Network::Mainnet),
        Chain::Testnet3 => Ok(Network::Testnet3),
        Chain::Regtest(_) => Ok(Network::Regtest),
        Chain::Signet => Ok(Network::Signet),
        Chain::LiquidV1 => Ok(Network::LiquidV1),
        _ => Err(UnsupportedChain),
    }
}

/// Interval between recurrent payments.
#[derive(Clone, Copy, Debug, PartialEq, Eq, Structural, PartialOrd, Ord, Hash)]
pub enum Recurrent {
    NonRecurrent,
    Seconds(u64),
    Months(u8),
    Years(u8),
}

impl Default for Recurrent {
    fn default() -> (r: Recurrent)
        ensures
            r == Recurrent::NonRecurrent,
    {
        Recurrent::NonRecurrent
    }
}

impl Recurrent {
    /// A copy of the value, which can be stepped with `next`.
    pub fn iter(&self) -> (r: Recurrent)
        ensures
            r == *self,
    {
        *self
    }

    /// Yields the interval itself for every recurrent value, and nothing for
    /// a non-recurrent one; the value is left as it is.
    pub fn next(&mut self) -> (r: Option<Recurrent>)
        ensures
            *final(self) == *old(self),
            r == (if *old(self) == Recurrent::NonRecurrent {
                None
            } else {
                Some(*old(self))
            }),
    {
        match self {
            Recurrent::NonRecurrent => None,
            _ => Some(*self),
        }
    }
}

/// Amount in the invoice asset.
#[derive(Clone, Copy, Debug, PartialEq, Eq, Structural, PartialOrd, Ord, Hash)]
pub enum AmountExt {
    /// Payments for any amount is accepted: useful for charity/donations, etc
    Any,
    Normal(u64),
    Milli(u64, u16),
}

impl Default for AmountExt {
    fn default() -> (r: AmountExt)
        ensures
            r == AmountExt::Any,
    {
        AmountExt::Any
    }
}

impl AmountExt {
    /// The number of atomic units, which only a `Normal` amount has.
    pub fn atomic_value(&self) -> (r: Option<u64>)
        ensures
            r == (match *self {
                AmountExt::Normal(v) => Some(v),
                _ => None,
            }),
    {
        match self {
            AmountExt::Any => None,
            AmountExt::Normal(val) => Some(*val),
            AmountExt::Milli(_, _) => None,
        }
    }
}

/// Quantity of items the invoice is for.
#[derive(Clone, Copy, Debug, PartialEq, Eq, Structural, PartialOrd, Ord, Hash)]
pub struct Quantity {
    pub min: u32,
    pub max: Option<u32>,
    pub default: u32,
}

impl Default for Quantity {
    fn default() -> (r: Quantity)
        ensures
            r == (Quantity { min: 0, max: None, default: 1 }),
    {
        Quantity { min: 0, max: None, default: 1 }
    }
}

/// Three-letter currency code, as bytes.
#[derive(Clone, Copy, Debug, PartialEq, Eq, Structural, PartialOrd, Ord, Hash)]
pub struct Iso4217(pub u8, pub u8, pub u8);

impl Iso4217 {
    /// Takes the three bytes of a string of exactly three bytes.
    pub fn from_str(s: &str) -> (r: Result<Iso4217, Iso4217Error>)
        ensures
            s.spec_bytes().len() == 3 ==> r == Ok::<Iso4217, Iso4217Error>(
                Iso4217(s.spec_bytes()[0], s.spec_bytes()[1], s.spec_bytes()[2]),
            ),
            s.spec_bytes().len() != 3 ==> r == Err::<Iso4217, Iso4217Error>(Iso4217Error::WrongLen),
    {
        let bytes = s.as_bytes_vec();
        if bytes.len() != 3 {
            return Err(Iso4217Error::WrongLen);
        }
        Ok(Iso4217(bytes[0], bytes[1], bytes[2]))
    }
}

/// Floor price of the asset in a fiat currency.
#[derive(Clone, Debug)]
pub struct CurrencyData {
    pub iso4217: Iso4217,
    pub coins: u32,
    pub fractions: u8,
    pub price_provider: String,
}

pub type CurrencyView = (Iso4217, u32, u8, Seq<char>);

impl View for CurrencyData {
    type V = CurrencyView;

    open spec fn view(&self) -> CurrencyView {
        (self.iso4217, self.coins, self.fractions, self.price_provider@)
    }
}

/// Commitment to the invoice details and where to find them.
#[derive(Clone, Debug)]
pub struct Details {
    pub commitment: Vec<u8>,
    pub source: String,
}

pub type DetailsView = (Seq<u8>, Seq<char>);

impl View for Details {
    type V = DetailsView;

    open spec fn view(&self) -> DetailsView {
        (self.commitment@, self.source@)
    }
}

/// An endpoint to a consignment exchange medium.
#[derive(Clone, Debug)]
pub enum ConsignmentEndpoint {
    /// Storm protocol node address, in its canonical text form
    Storm(String),
    /// RGB HTTP JSON-RPC protocol URL
    RgbHttpJsonRpc(String),
}

pub enum EndpointView {
    Storm(Seq<char>),
    RgbHttpJsonRpc(Seq<char>),
}

impl View for ConsignmentEndpoint {
    type V = EndpointView;

    open spec fn view(&self) -> EndpointView {
        match self {
            ConsignmentEndpoint::Storm(s) => EndpointView::Storm(s@),
            ConsignmentEndpoint::RgbHttpJsonRpc(s) => EndpointView::RgbHttpJsonRpc(s@),
        }
    }
}

/// Path hint for a lightning network payment.
#[derive(Clone, Debug)]
pub struct LnPathHint {
    pub node_id: Vec<u8>,
    pub short_channel_id: u64,
    pub fee_base_msat: u32,
    pub fee_proportional_millionths: u32,
    pub cltv_expiry_delta: u16,
}

pub type PathHintView = (Seq<u8>, u64, u32, u32, u16);

impl View for LnPathHint {
    type V = PathHintView;

    open spec fn view(&self) -> PathHintView {
        (
            self.node_id@,
            self.short_channel_id,
            self.fee_base_msat,
            self.fee_proportional_millionths,
            self.cltv_expiry_delta,
        )
    }
}

pub open spec fn hints_view(v: Seq<LnPathHint>) -> Seq<PathHintView> {
    v.map_values(|h: LnPathHint| h@)
}

/// Lightning node receiving the payment.
#[derive(Clone, Debug)]
pub struct LnAddress {
    pub node_id: Vec<u8>,
    pub features: Vec<u8>,
    pub lock: Vec<u8>,
    pub min_final_cltv_expiry: Option<u16>,
    pub path_hints: Vec<LnPathHint>,
}

pub struct LnAddressView {
    pub node_id: Seq<u8>,
    pub features: Seq<u8>,
    pub lock: Seq<u8>,
    pub min_final_cltv_expiry: Option<u16>,
    pub path_hints: Seq<PathHintView>,
}

impl View for LnAddress {
    type V = LnAddressView;

    open spec fn view(&self) -> LnAddressView {
        LnAddressView {
            node_id: self.node_id@,
            features: self.features@,
            lock: self.lock@,
            min_final_cltv_expiry: self.min_final_cltv_expiry,
            path_hints: hints_view(self.path_hints@),
        }
    }
}

/// Payment destination.
#[derive(Clone, Debug)]
pub enum Beneficiary {
    /// Bitcoin address, in its canonical text form
    Address(String),
    /// Concealed (blinded) UTXO: the 32 bytes of its hash
    BlindUtxo(Vec<u8>),
    /// Output descriptor, in its canonical text form
    Descriptor(String),
    /// Full transaction template, as serialized bytes
    Psbt(Vec<u8>),
    /// Lightning node receiving the payment
    Bolt(LnAddress),
    /// Fallback option for all future variants
    Unknown(Vec<u8>),
}

pub enum BeneficiaryView {
    Address(Seq<char>),
    BlindUtxo(Seq<u8>),
    Descriptor(Seq<char>),
    Psbt(Seq<u8>),
    Bolt(LnAddressView),
    Unknown(Seq<u8>),
}

impl View for Beneficiary {
    type V = BeneficiaryView;

    open spec fn view(&self) -> BeneficiaryView {
        match self {
            Beneficiary::Address(s) => BeneficiaryView::Address(s@),
            Beneficiary::BlindUtxo(b) => BeneficiaryView::BlindUtxo(b@),
            Beneficiary::Descriptor(s) => BeneficiaryView::Descriptor(s@),
            Beneficiary::Psbt(b) => BeneficiaryView::Psbt(b@),
            Beneficiary::Bolt(a) => BeneficiaryView::Bolt(a@),
            Beneficiary::Unknown(b) => BeneficiaryView::Unknown(b@),
        }
    }
}

/// Class of the invoice asset relative to a chain.
#[derive(Clone, Debug)]
pub enum AssetClass {
    Native,
    /// An asset that is not the native asset of any known chain: its id
    Rgb(Vec<u8>),
    InvalidNativeChain,
}

pub enum AssetClassView {
    Native,
    Rgb(Seq<u8>),
    InvalidNativeChain,
}

impl View for AssetClass {
    type V = AssetClassView;

    open spec fn view(&self) -> AssetClassView {
        match self {
            AssetClass::Native => AssetClassView::Native,
            AssetClass::Rgb(id) => AssetClassView::Rgb(id@),
            AssetClass::InvalidNativeChain => AssetClassView::InvalidNativeChain,
        }
    }
}

} // verus!
