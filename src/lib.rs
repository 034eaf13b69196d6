//! Universal invoices: a payment request naming a beneficiary, an amount and
//! optional payment metadata, with a canonical binary encoding, a Bech32m
//! text form and a detachable signature over its content.

pub mod amount;
pub mod codec;
pub mod display;
pub mod external;
pub mod format;
pub mod invoice;
pub mod laws;
pub mod parse;
pub mod text;
pub mod types;

pub use codec::DecodeError;
pub use format::{Format, UnknownFormat};
pub use invoice::{BeneficiariesIter, ExtensionField, Invoice, SignaturePair};
pub use text::{compare_text, TextParseError};
pub use types::{
    AmountExt, AmountParseError, AssetClass, Beneficiary, BeneficiaryParseError, Chain,
    ConsignmentEndpoint, ConsignmentEndpointParseError, CurrencyData, Details, Iso4217,
    Iso4217Error, LnAddress, LnPathHint, Network, NotRgbInvoice, Quantity, Recurrent,
    UnsupportedChain,
};
