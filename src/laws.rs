use vstd::prelude::*;

use crate::codec::{decodes_to, enc_extensions, enc_invoice};
use crate::external::native_asset_of;
use crate::invoice::{asset_class, beneficiary_sequence, standard_natives, InvoiceView};
use crate::types::{AssetClassView, Chain};

verus! {

/// The native assets of the standard chains are distinct, so an asset that is
/// native to one of them is native to no other.
pub proof fn lemma_standard_natives_distinct()
    ensures
        forall|i: int, j: int|
            0 <= i < j < standard_natives().len() ==> #[trigger] standard_natives()[i]
                != #[trigger] standard_natives()[j],
{
    let s = standard_natives();
    assert(s[0][0] == 0x6f);
    assert(s[1][0] == 0xf6);
    assert(s[2][0] == 0x14);
    assert(s[3][0] == 0x43);
}

/// The standard chains, whose native assets the classification knows.
pub open spec fn is_standard(c: Chain) -> bool {
    c == Chain::Mainnet || c == Chain::Signet || c == Chain::LiquidV1 || c == Chain::Testnet3
}

/// Chain confusion: the native asset of one standard chain, asked for on
/// another standard chain, is invalid there.
pub proof fn lemma_chain_confusion(native: Chain, target: Chain)
    requires
        is_standard(native),
        is_standard(target),
        native != target,
    ensures
        asset_class(
            Some(native_asset_of(native)),
            target == Chain::Mainnet,
            Some(native_asset_of(target)),
            standard_natives(),
        ) == AssetClassView::InvalidNativeChain,
{
    let s = standard_natives();
    assert(native_asset_of(Chain::Mainnet)[0] == 0x6f);
    assert(native_asset_of(Chain::Signet)[0] == 0xf6);
    assert(native_asset_of(Chain::LiquidV1)[0] == 0x14);
    assert(native_asset_of(Chain::Testnet3)[0] == 0x43);
    assert(native_asset_of(native) != native_asset_of(target));
    if native == Chain::Mainnet {
        assert(s[0] == native_asset_of(native));
    } else if native == Chain::Signet {
        assert(s[1] == native_asset_of(native));
    } else if native == Chain::LiquidV1 {
        assert(s[2] == native_asset_of(native));
    } else {
        assert(s[3] == native_asset_of(native));
    }
}

/// Bytes that decode re-encode to themselves, extension records included:
/// those come last, exactly as they were read.
pub proof fn lemma_extensions_preserved(b: Seq<u8>, v: InvoiceView)
    requires
        decodes_to(b, v),
    ensures
        enc_invoice(v) == b,
        b.subrange(b.len() - enc_extensions(v.unknown).len(), b.len() as int) == enc_extensions(
            v.unknown,
        ),
{
    let e = enc_extensions(v.unknown);
    let front = enc_invoice(v).subrange(0, b.len() - e.len());
    assert(enc_invoice(v) =~= front + e);
}

/// The beneficiaries come primary first, then the alternatives in their
/// stored order, and nothing else.
pub proof fn lemma_beneficiary_order(v: InvoiceView)
    ensures
        beneficiary_sequence(v).len() == 1 + v.alt_beneficiaries.len(),
        beneficiary_sequence(v)[0] == v.beneficiary,
        forall|i: int|
            0 <= i < v.alt_beneficiaries.len() ==> beneficiary_sequence(v)[i + 1]
                == v.alt_beneficiaries[i],
{
}

} // verus!
