use vstd::prelude::*;

use crate::external::{
    address_of, descriptor_of, native_asset, native_asset_of, parse_address, parse_descriptor,
};
use crate::types::{
    AmountExt, AssetClass, AssetClassView, Beneficiary, BeneficiaryView, Chain, ConsignmentEndpoint,
    CurrencyData, CurrencyView, Details, DetailsView, EndpointView, Network, Quantity, Recurrent,
};

verus! {

/// A record of a field whose tag this library does not know: kept as it came.
pub type ExtensionField = (u16, Vec<u8>);

/// Signing key and signature, each as its serialized bytes.
pub type SignaturePair = (Vec<u8>, Vec<u8>);

/// Universal invoice. Fields are private since each update of a signed field
/// must clear the signature.
#[derive(Clone, Debug)]
pub struct Invoice {
    pub(crate) version: u8,
    pub(crate) amount: AmountExt,
    pub(crate) beneficiary: Beneficiary,
    pub(crate) alt_beneficiaries: Vec<Beneficiary>,
    pub(crate) asset: Option<Vec<u8>>,
    /// Unix timestamp, in seconds
    pub(crate) expiry: Option<i64>,
    pub(crate) recurrent: Recurrent,
    pub(crate) quantity: Option<Quantity>,
    pub(crate) currency_requirement: Option<CurrencyData>,
    pub(crate) merchant: Option<String>,
    pub(crate) purpose: Option<String>,
    pub(crate) details: Option<Details>,
    pub(crate) signature: Option<SignaturePair>,
    pub(crate) consignment_endpoints: Vec<ConsignmentEndpoint>,
    pub(crate) network: Option<Network>,
    pub(crate) unknown: Vec<ExtensionField>,
}

pub struct InvoiceView {
    pub version: u8,
    pub amount: AmountExt,
    pub beneficiary: BeneficiaryView,
    pub alt_beneficiaries: Seq<BeneficiaryView>,
    pub asset: Option<Seq<u8>>,
    pub expiry: Option<i64>,
    pub recurrent: Recurrent,
    pub quantity: Option<Quantity>,
    pub currency_requirement: Option<CurrencyView>,
    pub merchant: Option<Seq<char>>,
    pub purpose: Option<Seq<char>>,
    pub details: Option<DetailsView>,
    pub signature: Option<(Seq<u8>, Seq<u8>)>,
    pub consignment_endpoints: Seq<EndpointView>,
    pub network: Option<Network>,
    pub unknown: Seq<(u16, Seq<u8>)>,
}

pub open spec fn bytes_opt(o: Option<Vec<u8>>) -> Option<Seq<u8>> {
    match o {
        Some(v) => Some(v@),
        None => None,
    }
}

pub open spec fn text_opt(o: Option<String>) -> Option<Seq<char>> {
    match o {
        Some(s) => Some(s@),
        None => None,
    }
}

pub open spec fn currency_opt(o: Option<CurrencyData>) -> Option<CurrencyView> {
    match o {
        Some(c) => Some(c@),
        None => None,
    }
}

pub open spec fn details_opt(o: Option<Details>) -> Option<DetailsView> {
    match o {
        Some(d) => Some(d@),
        None => None,
    }
}

pub open spec fn signature_opt(o: Option<SignaturePair>) -> Option<(Seq<u8>, Seq<u8>)> {
    match o {
        Some(p) => Some((p.0@, p.1@)),
        None => None,
    }
}

pub open spec fn beneficiaries_view(v: Seq<Beneficiary>) -> Seq<BeneficiaryView> {
    v.map_values(|b: Beneficiary| b@)
}

pub open spec fn endpoints_view(v: Seq<ConsignmentEndpoint>) -> Seq<EndpointView> {
    v.map_values(|e: ConsignmentEndpoint| e@)
}

pub open spec fn extensions_view(v: Seq<ExtensionField>) -> Seq<(u16, Seq<u8>)> {
    v.map_values(|f: ExtensionField| (f.0, f.1@))
}

impl View for Invoice {
    type V = InvoiceView;

    open(crate) spec fn view(&self) -> InvoiceView {
        InvoiceView {
            version: self.version,
            amount: self.amount,
            beneficiary: self.beneficiary@,
            alt_beneficiaries: beneficiaries_view(self.alt_beneficiaries@),
            asset: bytes_opt(self.asset),
            expiry: self.expiry,
            recurrent: self.recurrent,
            quantity: self.quantity,
            currency_requirement: currency_opt(self.currency_requirement),
            merchant: text_opt(self.merchant),
            purpose: text_opt(self.purpose),
            details: details_opt(self.details),
            signature: signature_opt(self.signature),
            consignment_endpoints: endpoints_view(self.consignment_endpoints@),
            network: self.network,
            unknown: extensions_view(self.unknown@),
        }
    }
}

/// A text that the setters keep: an empty one stands for no value.
pub open spec fn normalized_text(s: Seq<char>) -> Option<Seq<char>> {
    if s.len() == 0 {
        None
    } else {
        Some(s)
    }
}

/// The asset class of an (optional) asset id on an (optional) chain, given
/// the native asset id of that chain and those of the known standard chains.
pub open spec fn asset_class(
    asset: Option<Seq<u8>>,
    chain_is_mainnet: bool,
    target_native: Option<Seq<u8>>,
    known_natives: Seq<Seq<u8>>,
) -> AssetClassView {
    match asset {
        None => if chain_is_mainnet {
            AssetClassView::Native
        } else {
            AssetClassView::InvalidNativeChain
        },
        Some(id) => if target_native == Some(id) {
            AssetClassView::Native
        } else if known_natives.contains(id) {
            AssetClassView::InvalidNativeChain
        } else {
            AssetClassView::Rgb(id)
        },
    }
}

/// The native asset ids of the standard chains that the classification knows.
pub open spec fn standard_natives() -> Seq<Seq<u8>> {
    seq![
        native_asset_of(Chain::Mainnet),
        native_asset_of(Chain::Signet),
        native_asset_of(Chain::LiquidV1),
        native_asset_of(Chain::Testnet3),
    ]
}

pub open spec fn chain_is_mainnet(chain: Option<Chain>) -> bool {
    chain == Some(Chain::Mainnet)
}

pub open spec fn chain_native(chain: Option<Chain>) -> Option<Seq<u8>> {
    match chain {
        Some(c) => Some(native_asset_of(c)),
        None => None,
    }
}

/// Genesis block hash of bitcoin regtest networks, in its internal byte order.
pub const REGTEST_GENESIS: [u8; 32] = [
    0x06, 0x22, 0x6e, 0x46, 0x11, 0x1a, 0x0b, 0x59, 0xca, 0xaf, 0x12, 0x60, 0x43, 0xeb, 0x5b, 0xbf,
    0x28, 0xc3, 0x4f, 0x3a, 0x5e, 0x33, 0x2a, 0x1f, 0xc7, 0xb2, 0xb7, 0x3c, 0xf1, 0x88, 0x91, 0x0f,
];

/// The chain of a network; regtest is the default regtest chain.
pub open spec fn network_chain(n: Network) -> Chain {
    match n {
        Network::Mainnet => Chain::Mainnet,
        Network::Testnet3 => Chain::Testnet3,
        Network::Regtest => Chain::Regtest(REGTEST_GENESIS),
        Network::Signet => Chain::Signet,
        Network::LiquidV1 => Chain::LiquidV1,
    }
}

pub fn chain_of_network(n: Network) -> (r: Chain)
    ensures
        r == network_chain(n),
{
    match n {
        Network::Mainnet => Chain::Mainnet,
        Network::Testnet3 => Chain::Testnet3,
        Network::Regtest => Chain::Regtest(REGTEST_GENESIS),
        Network::Signet => Chain::Signet,
        Network::LiquidV1 => Chain::LiquidV1,
    }
}

/// The sequence of beneficiaries of an invoice: the primary one, then the
/// alternatives in their stored order.
pub open spec fn beneficiary_sequence(inv: InvoiceView) -> Seq<BeneficiaryView> {
    seq![inv.beneficiary] + inv.alt_beneficiaries
}

pub(crate) fn eq_bytes(a: &Vec<u8>, b: &Vec<u8>) -> (r: bool)
    ensures
        r == (a@ == b@),
{
    if a.len() != b.len() {
        return false;
    }
    let mut i: usize = 0;
    while i < a.len()
        invariant
            a@.len() == b@.len(),
            i <= a@.len(),
            forall|j: int| 0 <= j < i ==> a@[j] == b@[j],
        decreases a@.len() - i,
    {
        if a[i] != b[i] {
            return false;
        }
        i = i + 1;
    }
    assert(a@ =~= b@);
    true
}

fn eq_text_opt(a: &Option<String>, b: &Option<String>) -> (r: bool)
    ensures
        r == (text_opt(*a) == text_opt(*b)),
{
    match (a, b) {
        (Some(x), Some(y)) => *x == *y,
        (None, None) => true,
        _ => false,
    }
}

fn eq_currency_opt(a: &Option<CurrencyData>, b: &Option<CurrencyData>) -> (r: bool)
    ensures
        r == (currency_opt(*a) == currency_opt(*b)),
{
    match (a, b) {
        (Some(x), Some(y)) => x.iso4217 == y.iso4217 && x.coins == y.coins && x.fractions
            == y.fractions && x.price_provider == y.price_provider,
        (None, None) => true,
        _ => false,
    }
}

fn eq_details_opt(a: &Option<Details>, b: &Option<Details>) -> (r: bool)
    ensures
        r == (details_opt(*a) == details_opt(*b)),
{
    match (a, b) {
        (Some(x), Some(y)) => eq_bytes(&x.commitment, &y.commitment) && x.source == y.source,
        (None, None) => true,
        _ => false,
    }
}

fn eq_endpoint(a: &ConsignmentEndpoint, b: &ConsignmentEndpoint) -> (r: bool)
    ensures
        r == (a@ == b@),
{
    match (a, b) {
        (ConsignmentEndpoint::Storm(x), ConsignmentEndpoint::Storm(y)) => *x == *y,
        (ConsignmentEndpoint::RgbHttpJsonRpc(x), ConsignmentEndpoint::RgbHttpJsonRpc(y)) => *x
            == *y,
        _ => false,
    }
}

/// Iterator over the beneficiaries of an invoice: the primary one first, then
/// the alternatives.
pub struct BeneficiariesIter<'a> {
    pub invoice: &'a Invoice,
    /// Whether the primary beneficiary was yielded
    pub primary_done: bool,
    /// Position of the next alternative beneficiary
    pub alt_index: usize,
}

impl<'a> BeneficiariesIter<'a> {
    /// How many beneficiaries were yielded.
    pub open spec fn position(&self) -> int {
        if self.primary_done {
            self.alt_index + 1
        } else {
            0
        }
    }

    pub open spec fn wf(&self) -> bool {
        !self.primary_done ==> self.alt_index == 0
    }

    pub fn next(&mut self) -> (r: Option<&'a Beneficiary>)
        requires
            old(self).wf(),
        ensures
            final(self).wf(),
            final(self).invoice == old(self).invoice,
            ({
                let s = beneficiary_sequence(old(self).invoice@);
                if old(self).position() < s.len() {
                    r.is_some() && r.unwrap()@ == s[old(self).position()] && final(self).position()
                        == old(self).position() + 1
                } else {
                    r.is_none() && final(self).position() == old(self).position()
                }
            }),
    {
        let inv: &'a Invoice = self.invoice;
        if !self.primary_done {
            self.primary_done = true;
            return Some(&inv.beneficiary);
        }
        if self.alt_index < inv.alt_beneficiaries.len() {
            let b: &'a Beneficiary = &inv.alt_beneficiaries[self.alt_index];
            self.alt_index = self.alt_index + 1;
            Some(b)
        } else {
            None
        }
    }
}

/// The asset id, where it names none of the known native assets.
pub open spec fn rgb_asset_of(asset: Option<Seq<u8>>, known_natives: Seq<Seq<u8>>) -> Option<Seq<u8>> {
    match asset {
        Some(id) => if known_natives.contains(id) {
            None
        } else {
            Some(id)
        },
        None => None,
    }
}

pub(crate) fn copy_bytes(b: &Vec<u8>) -> (r: Vec<u8>)
    ensures
        r@ == b@,
{
    let mut r: Vec<u8> = Vec::new();
    let mut i: usize = 0;
    while i < b.len()
        invariant
            i <= b@.len(),
            r@ == b@.subrange(0, i as int),
        decreases b@.len() - i,
    {
        r.push(b[i]);
        i = i + 1;
        proof {
            assert(r@ =~= b@.subrange(0, i as int));
        }
    }
    proof {
        assert(r@ =~= b@);
    }
    r
}

fn contains_bytes(known: &Vec<Vec<u8>>, id: &Vec<u8>) -> (r: bool)
    ensures
        r == known@.map_values(|v: Vec<u8>| v@).contains(id@),
{
    let ghost ks = known@.map_values(|v: Vec<u8>| v@);
    let mut i: usize = 0;
    while i < known.len()
        invariant
            i <= known@.len(),
            ks == known@.map_values(|v: Vec<u8>| v@),
            forall|j: int| 0 <= j < i ==> ks[j] != id@,
        decreases known@.len() - i,
    {
        if eq_bytes(&known[i], id) {
            proof {
                assert(ks[i as int] == id@);
            }
            return true;
        }
        i = i + 1;
    }
    false
}

/// Classifies an asset given the native asset id of the target chain and
/// those of the known standard chains.
pub fn classify_with(
    asset: &Option<Vec<u8>>,
    chain_is_mainnet: bool,
    target_native: &Option<Vec<u8>>,
    known_natives: &Vec<Vec<u8>>,
) -> (r: AssetClass)
    ensures
        r@ == asset_class(
            bytes_opt(*asset),
            chain_is_mainnet,
            bytes_opt(*target_native),
            known_natives@.map_values(|v: Vec<u8>| v@),
        ),
{
    match asset {
        None => if chain_is_mainnet {
            AssetClass::Native
        } else {
            AssetClass::InvalidNativeChain
        },
        Some(id) => {
            let is_target = match target_native {
                Some(t) => eq_bytes(t, id),
                None => false,
            };
            if is_target {
                AssetClass::Native
            } else if contains_bytes(known_natives, id) {
                AssetClass::InvalidNativeChain
            } else {
                AssetClass::Rgb(copy_bytes(id))
            }
        },
    }
}

impl Invoice {
    /// A version-0 invoice paying `amount` (or any amount) of `asset` (or the
    /// native asset) to `beneficiary`, with no other field set.
    pub fn new(beneficiary: Beneficiary, amount: Option<u64>, asset: Option<Vec<u8>>) -> (r:
        Invoice)
        ensures
            r@ == (InvoiceView {
                version: 0,
                amount: match amount {
                    Some(v) => AmountExt::Normal(v),
                    None => AmountExt::Any,
                },
                beneficiary: beneficiary@,
                alt_beneficiaries: Seq::empty(),
                asset: bytes_opt(asset),
                expiry: None,
                recurrent: Recurrent::NonRecurrent,
                quantity: None,
                currency_requirement: None,
                merchant: None,
                purpose: None,
                details: None,
                signature: None,
                consignment_endpoints: Seq::empty(),
                network: None,
                unknown: Seq::empty(),
            }),
    {
        let amount = match amount {
            Some(v) => AmountExt::Normal(v),
            None => AmountExt::Any,
        };
        let r = Invoice {
            version: 0,
            amount,
            beneficiary,
            alt_beneficiaries: Vec::new(),
            asset,
            expiry: None,
            recurrent: Recurrent::NonRecurrent,
            quantity: None,
            currency_requirement: None,
            merchant: None,
            purpose: None,
            details: None,
            signature: None,
            consignment_endpoints: Vec::new(),
            network: None,
            unknown: Vec::new(),
        };
        proof {
            assert(r@.alt_beneficiaries =~= Seq::empty());
            assert(r@.consignment_endpoints =~= Seq::empty());
            assert(r@.unknown =~= Seq::empty());
        }
        r
    }

    /// An invoice paying to an output descriptor, given as text; the native
    /// asset of `chain` is named unless the chain is mainnet. Nothing where
    /// the text is not a descriptor.
    pub fn with_descriptor(descriptor: &str, amount: Option<u64>, chain: &Chain) -> (r: Option<
        Invoice,
    >)
        ensures
            match descriptor_of(descriptor@) {
                None => r is None,
                Some(d) => r matches Some(x) && x@ == Invoice::new_view(
                    BeneficiaryView::Descriptor(d),
                    amount,
                    if *chain == Chain::Mainnet {
                        None
                    } else {
                        Some(native_asset_of(*chain))
                    },
                ),
            },
    {
        let text = match parse_descriptor(descriptor) {
            Some(d) => d,
            None => return None,
        };
        let asset = match chain {
            Chain::Mainnet => None,
            _ => Some(native_asset(chain)),
        };
        Some(Invoice::new(Beneficiary::Descriptor(text), amount, asset))
    }

    /// An invoice paying to a bitcoin address; the native asset of the
    /// address's network is named unless it is mainnet. Nothing where the
    /// text is not an address.
    pub fn with_address(address: &str, amount: Option<u64>) -> (r: Option<Invoice>)
        ensures
            match address_of(address@) {
                None => r is None,
                Some((a, n)) => r matches Some(x) && x@ == Invoice::new_view(
                    BeneficiaryView::Address(a),
                    amount,
                    if n == Network::Mainnet {
                        None
                    } else {
                        Some(native_asset_of(network_chain(n)))
                    },
                ),
            },
    {
        let (text, network) = match parse_address(address) {
            Some(parsed) => parsed,
            None => return None,
        };
        let asset = match network {
            Network::Mainnet => None,
            _ => Some(native_asset(&chain_of_network(network))),
        };
        Some(Invoice::new(Beneficiary::Address(text), amount, asset))
    }

    pub open spec fn new_view(b: BeneficiaryView, amount: Option<u64>, asset: Option<Seq<u8>>) -> InvoiceView {
        InvoiceView {
            version: 0,
            amount: match amount {
                Some(v) => AmountExt::Normal(v),
                None => AmountExt::Any,
            },
            beneficiary: b,
            alt_beneficiaries: Seq::empty(),
            asset,
            expiry: None,
            recurrent: Recurrent::NonRecurrent,
            quantity: None,
            currency_requirement: None,
            merchant: None,
            purpose: None,
            details: None,
            signature: None,
            consignment_endpoints: Seq::empty(),
            network: None,
            unknown: Seq::empty(),
        }
    }

    /// The beneficiaries, the primary one first; each call starts over.
    pub fn beneficiaries(&self) -> (r: BeneficiariesIter)
        ensures
            r.invoice == self,
            r.wf(),
            r.position() == 0,
    {
        BeneficiariesIter { invoice: self, primary_done: false, alt_index: 0 }
    }

    /// The class of the invoice asset on `chain`, given the native asset id of
    /// `chain` and those of the standard chains.
    pub fn classify_asset(&self, chain: Option<Chain>) -> (r: AssetClass)
        ensures
            r@ == asset_class(
                self@.asset,
                chain_is_mainnet(chain),
                chain_native(chain),
                standard_natives(),
            ),
    {
        let is_mainnet = match &chain {
            Some(Chain::Mainnet) => true,
            _ => false,
        };
        let target = match &chain {
            Some(c) => Some(native_asset(c)),
            None => None,
        };
        let mut known: Vec<Vec<u8>> = Vec::new();
        known.push(native_asset(&Chain::Mainnet));
        known.push(native_asset(&Chain::Signet));
        known.push(native_asset(&Chain::LiquidV1));
        known.push(native_asset(&Chain::Testnet3));
        proof {
            assert(chain_is_mainnet(chain) == is_mainnet);
            assert(known@.map_values(|v: Vec<u8>| v@) =~= standard_natives());
        }
        classify_with(&self.asset, is_mainnet, &target, &known)
    }

    /// Whether the invoice asset is not a contract asset. The name says the
    /// opposite of what is returned: `true` exactly when `rgb_asset` gives
    /// nothing.
    pub fn is_rgb(&self) -> (r: bool)
        ensures
            r == (rgb_asset_of(self@.asset, standard_natives()) is None),
    {
        self.rgb_asset().is_none()
    }

    /// The asset id, where it is not the native asset of a standard chain.
    pub fn rgb_asset(&self) -> (r: Option<Vec<u8>>)
        ensures
            bytes_opt(r) == rgb_asset_of(self@.asset, standard_natives()),
    {
        match &self.asset {
            None => None,
            Some(id) => {
                let mut known: Vec<Vec<u8>> = Vec::new();
                known.push(native_asset(&Chain::Mainnet));
                known.push(native_asset(&Chain::Signet));
                known.push(native_asset(&Chain::LiquidV1));
                known.push(native_asset(&Chain::Testnet3));
                proof {
                    assert(known@.map_values(|v: Vec<u8>| v@) =~= standard_natives());
                }
                if contains_bytes(&known, id) {
                    None
                } else {
                    Some(copy_bytes(id))
                }
            },
        }
    }

    /// Sets the amount; a change clears the signature. Reports whether the
    /// value changed.
    pub fn set_amount(&mut self, amount: AmountExt) -> (r: bool)
        ensures
            final(self)@.amount == amount,
            r == (old(self)@.amount != amount),
            r ==> final(self)@ == (InvoiceView { amount, signature: None, ..old(self)@ }),
            !r ==> final(self)@ == old(self)@,
    {
        if self.amount == amount {
            return false;
        }
        self.amount = amount;
        self.signature = None;
        true
    }

    /// Sets the interval of recurrent payments; a change clears the signature.
    pub fn set_recurrent(&mut self, recurrent: Recurrent) -> (r: bool)
        ensures
            final(self)@.recurrent == recurrent,
            r == (old(self)@.recurrent != recurrent),
            r ==> final(self)@ == (InvoiceView { recurrent, signature: None, ..old(self)@ }),
            !r ==> final(self)@ == old(self)@,
    {
        if self.recurrent == recurrent {
            return false;
        }
        self.recurrent = recurrent;
        self.signature = None;
        true
    }

    /// Sets the expiry, as a unix timestamp in seconds; a change clears the
    /// signature.
    pub fn set_expiry(&mut self, expiry: i64) -> (r: bool)
        ensures
            final(self)@.expiry == Some(expiry),
            r == (old(self)@.expiry != Some(expiry)),
            r ==> final(self)@ == (InvoiceView {
                expiry: Some(expiry),
                signature: None,
                ..old(self)@
            }),
            !r ==> final(self)@ == old(self)@,
    {
        if self.expiry == Some(expiry) {
            return false;
        }
        self.expiry = Some(expiry);
        self.signature = None;
        true
    }

    /// Removes the expiry; a change clears the signature.
    pub fn set_no_expiry(&mut self) -> (r: bool)
        ensures
            final(self)@.expiry is None,
            r == (old(self)@.expiry is Some),
            r ==> final(self)@ == (InvoiceView { expiry: None, signature: None, ..old(self)@ }),
            !r ==> final(self)@ == old(self)@,
    {
        if self.expiry.is_none() {
            return false;
        }
        self.expiry = None;
        self.signature = None;
        true
    }

    /// Sets the quantity of items; a change clears the signature.
    pub fn set_quantity(&mut self, quantity: Quantity) -> (r: bool)
        ensures
            final(self)@.quantity == Some(quantity),
            r == (old(self)@.quantity != Some(quantity)),
            r ==> final(self)@ == (InvoiceView {
                quantity: Some(quantity),
                signature: None,
                ..old(self)@
            }),
            !r ==> final(self)@ == old(self)@,
    {
        let same = match &self.quantity {
            Some(q) => *q == quantity,
            None => false,
        };
        if same {
            return false;
        }
        self.quantity = Some(quantity);
        self.signature = None;
        true
    }

    /// Removes the quantity; a change clears the signature.
    pub fn remove_quantity(&mut self) -> (r: bool)
        ensures
            final(self)@.quantity is None,
            r == (old(self)@.quantity is Some),
            r ==> final(self)@ == (InvoiceView { quantity: None, signature: None, ..old(self)@ }),
            !r ==> final(self)@ == old(self)@,
    {
        if self.quantity.is_none() {
            return false;
        }
        self.quantity = None;
        self.signature = None;
        true
    }

    /// Sets the fiat floor price; a change clears the signature.
    pub fn set_currency_requirement(&mut self, currency_data: CurrencyData) -> (r: bool)
        ensures
            final(self)@.currency_requirement == Some(currency_data@),
            r == (old(self)@.currency_requirement != Some(currency_data@)),
            r ==> final(self)@ == (InvoiceView {
                currency_requirement: Some(currency_data@),
                signature: None,
                ..old(self)@
            }),
            !r ==> final(self)@ == old(self)@,
    {
        let currency_data = Some(currency_data);
        if eq_currency_opt(&self.currency_requirement, &currency_data) {
            return false;
        }
        self.currency_requirement = currency_data;
        self.signature = None;
        true
    }

    /// Removes the fiat floor price; a change clears the signature.
    pub fn remove_currency_requirement(&mut self) -> (r: bool)
        ensures
            final(self)@.currency_requirement is None,
            r == (old(self)@.currency_requirement is Some),
            r ==> final(self)@ == (InvoiceView {
                currency_requirement: None,
                signature: None,
                ..old(self)@
            }),
            !r ==> final(self)@ == old(self)@,
    {
        if self.currency_requirement.is_none() {
            return false;
        }
        self.currency_requirement = None;
        self.signature = None;
        true
    }

    /// Sets the merchant name, where an empty one removes it; a change clears
    /// the signature.
    pub fn set_merchant(&mut self, merchant: String) -> (r: bool)
        ensures
            final(self)@.merchant == normalized_text(merchant@),
            r == (old(self)@.merchant != normalized_text(merchant@)),
            r ==> final(self)@ == (InvoiceView {
                merchant: normalized_text(merchant@),
                signature: None,
                ..old(self)@
            }),
            !r ==> final(self)@ == old(self)@,
    {
        let merchant = if merchant.as_str().unicode_len() == 0 {
            None
        } else {
            Some(merchant)
        };
        if eq_text_opt(&self.merchant, &merchant) {
            return false;
        }
        self.merchant = merchant;
        self.signature = None;
        true
    }

    /// Removes the merchant name; a change clears the signature.
    pub fn remove_merchant(&mut self) -> (r: bool)
        ensures
            final(self)@.merchant is None,
            r == (old(self)@.merchant is Some),
            r ==> final(self)@ == (InvoiceView { merchant: None, signature: None, ..old(self)@ }),
            !r ==> final(self)@ == old(self)@,
    {
        if self.merchant.is_none() {
            return false;
        }
        self.merchant = None;
        self.signature = None;
        true
    }

    /// Sets the purpose of the payment, where an empty one removes it; a
    /// change clears the signature.
    pub fn set_purpose(&mut self, purpose: String) -> (r: bool)
        ensures
            final(self)@.purpose == normalized_text(purpose@),
            r == (old(self)@.purpose != normalized_text(purpose@)),
            r ==> final(self)@ == (InvoiceView {
                purpose: normalized_text(purpose@),
                signature: None,
                ..old(self)@
            }),
            !r ==> final(self)@ == old(self)@,
    {
        let purpose = if purpose.as_str().unicode_len() == 0 {
            None
        } else {
            Some(purpose)
        };
        if eq_text_opt(&self.purpose, &purpose) {
            return false;
        }
        self.purpose = purpose;
        self.signature = None;
        true
    }

    /// Removes the purpose; a change clears the signature.
    pub fn remove_purpose(&mut self) -> (r: bool)
        ensures
            final(self)@.purpose is None,
            r == (old(self)@.purpose is Some),
            r ==> final(self)@ == (InvoiceView { purpose: None, signature: None, ..old(self)@ }),
            !r ==> final(self)@ == old(self)@,
    {
        if self.purpose.is_none() {
            return false;
        }
        self.purpose = None;
        self.signature = None;
        true
    }

    /// Sets the details commitment; a change clears the signature.
    pub fn set_details(&mut self, details: Details) -> (r: bool)
        ensures
            final(self)@.details == Some(details@),
            r == (old(self)@.details != Some(details@)),
            r ==> final(self)@ == (InvoiceView {
                details: Some(details@),
                signature: None,
                ..old(self)@
            }),
            !r ==> final(self)@ == old(self)@,
    {
        let details = Some(details);
        if eq_details_opt(&self.details, &details) {
            return false;
        }
        self.details = details;
        self.signature = None;
        true
    }

    /// Removes the details commitment; a change clears the signature.
    pub fn remove_details(&mut self) -> (r: bool)
        ensures
            final(self)@.details is None,
            r == (old(self)@.details is Some),
            r ==> final(self)@ == (InvoiceView { details: None, signature: None, ..old(self)@ }),
            !r ==> final(self)@ == old(self)@,
    {
        if self.details.is_none() {
            return false;
        }
        self.details = None;
        self.signature = None;
        true
    }

    /// Adds an endpoint unless it is there already. The signature is kept.
    pub fn add_consignment_endpoint(&mut self, node: ConsignmentEndpoint) -> (r: bool)
        ensures
            final(self)@.consignment_endpoints.contains(node@),
            r == !old(self)@.consignment_endpoints.contains(node@),
            r ==> final(self)@ == (InvoiceView {
                consignment_endpoints: old(self)@.consignment_endpoints.push(node@),
                ..old(self)@
            }),
            !r ==> final(self)@ == old(self)@,
    {
        let mut i: usize = 0;
        while i < self.consignment_endpoints.len()
            invariant
                i <= self.consignment_endpoints@.len(),
                forall|j: int| 0 <= j < i ==> self.consignment_endpoints@[j]@ != node@,
            decreases self.consignment_endpoints@.len() - i,
        {
            if eq_endpoint(&self.consignment_endpoints[i], &node) {
                proof {
                    assert(endpoints_view(self.consignment_endpoints@)[i as int] == node@);
                }
                return false;
            }
            i = i + 1;
        }
        proof {
            assert forall|j: int| 0 <= j < self@.consignment_endpoints.len() implies self@.consignment_endpoints[j] != node@ by {
                assert(self@.consignment_endpoints[j] == self.consignment_endpoints@[j]@);
            }
        }
        self.consignment_endpoints.push(node);
        proof {
            assert(endpoints_view(self.consignment_endpoints@) =~= old(self)@.consignment_endpoints.push(node@));
            assert(self@.consignment_endpoints[self@.consignment_endpoints.len() - 1] == node@);
        }
        true
    }

    /// Sets the expected network. The signature is kept.
    pub fn set_network(&mut self, network: Network) -> (r: bool)
        ensures
            final(self)@.network == Some(network),
            r == (old(self)@.network != Some(network)),
            r ==> final(self)@ == (InvoiceView { network: Some(network), ..old(self)@ }),
            !r ==> final(self)@ == old(self)@,
    {
        if self.network == Some(network) {
            return false;
        }
        self.network = Some(network);
        true
    }

    /// Attaches a signing key and signature, both serialized.
    pub fn set_signature(&mut self, pubkey: Vec<u8>, signature: Vec<u8>)
        ensures
            final(self)@ == (InvoiceView { signature: Some((pubkey@, signature@)), ..old(self)@ }),
    {
        self.signature = Some((pubkey, signature));
    }

    /// Detaches the signature.
    pub fn remove_signature(&mut self)
        ensures
            final(self)@ == (InvoiceView { signature: None, ..old(self)@ }),
    {
        self.signature = None;
    }

    pub fn version(&self) -> (r: u8)
        ensures
            r == self@.version,
    {
        self.version
    }

    pub fn amount(&self) -> (r: AmountExt)
        ensures
            r == self@.amount,
    {
        self.amount
    }

    pub fn beneficiary(&self) -> (r: &Beneficiary)
        ensures
            r@ == self@.beneficiary,
    {
        &self.beneficiary
    }

    pub fn alt_beneficiaries(&self) -> (r: &Vec<Beneficiary>)
        ensures
            beneficiaries_view(r@) == self@.alt_beneficiaries,
    {
        &self.alt_beneficiaries
    }

    pub fn asset(&self) -> (r: &Option<Vec<u8>>)
        ensures
            bytes_opt(*r) == self@.asset,
    {
        &self.asset
    }

    pub fn expiry(&self) -> (r: Option<i64>)
        ensures
            r == self@.expiry,
    {
        self.expiry
    }

    pub fn recurrent(&self) -> (r: Recurrent)
        ensures
            r == self@.recurrent,
    {
        self.recurrent
    }

    pub fn quantity(&self) -> (r: Option<Quantity>)
        ensures
            r == self@.quantity,
    {
        self.quantity
    }

    pub fn currency_requirement(&self) -> (r: &Option<CurrencyData>)
        ensures
            currency_opt(*r) == self@.currency_requirement,
    {
        &self.currency_requirement
    }

    pub fn merchant(&self) -> (r: &Option<String>)
        ensures
            text_opt(*r) == self@.merchant,
    {
        &self.merchant
    }

    pub fn purpose(&self) -> (r: &Option<String>)
        ensures
            text_opt(*r) == self@.purpose,
    {
        &self.purpose
    }

    pub fn details(&self) -> (r: &Option<Details>)
        ensures
            details_opt(*r) == self@.details,
    {
        &self.details
    }

    pub fn signature(&self) -> (r: &Option<SignaturePair>)
        ensures
            signature_opt(*r) == self@.signature,
    {
        &self.signature
    }

    pub fn consignment_endpoints(&self) -> (r: &Vec<ConsignmentEndpoint>)
        ensures
            endpoints_view(r@) == self@.consignment_endpoints,
    {
        &self.consignment_endpoints
    }

    pub fn network(&self) -> (r: Option<Network>)
        ensures
            r == self@.network,
    {
        self.network
    }

    pub fn extension_fields(&self) -> (r: &Vec<ExtensionField>)
        ensures
            extensions_view(r@) == self@.unknown,
    {
        &self.unknown
    }
}

} // verus!
