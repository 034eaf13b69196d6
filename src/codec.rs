use vstd::bytes::{
    spec_u16_from_le_bytes,
    lemma_auto_spec_u16_to_from_le_bytes, lemma_auto_spec_u32_to_from_le_bytes,
    lemma_auto_spec_u64_to_from_le_bytes, spec_u16_to_le_bytes, spec_u32_to_le_bytes,
    spec_u64_to_le_bytes, u16_from_le_bytes, u16_to_le_bytes, u32_from_le_bytes, u32_to_le_bytes,
    u64_from_le_bytes, u64_to_le_bytes,
};
use vstd::prelude::*;
use vstd::utf8::{
    decode_utf8_encode_utf8, encode_utf8, encode_utf8_decode_utf8, encode_utf8_valid_utf8,
};

use crate::external::{merkle_node_hash, merkle_node_of, text_from_utf8};
use crate::invoice::{
    beneficiaries_view, bytes_opt, currency_opt, details_opt, endpoints_view, extensions_view,
    signature_opt, text_opt, ExtensionField, Invoice, InvoiceView, SignaturePair,
};
use crate::types::{
    AmountExt, ConsignmentEndpoint, CurrencyData, CurrencyView, Details, DetailsView, EndpointView,
    Iso4217, Network, Quantity, Recurrent, Beneficiary, BeneficiaryView, LnAddress, LnAddressView,
    LnPathHint, PathHintView, hints_view,
};

verus! {

// Canonical binary layout: integers are little-endian; a byte string is its
// length as eight bytes, then the bytes; a text is the byte string of its
// UTF-8 encoding.

/// `e` stands in `b` from position `pos` on.
pub open spec fn at(b: Seq<u8>, pos: int, e: Seq<u8>) -> bool {
    0 <= pos && pos + e.len() <= b.len() && b.subrange(pos, pos + e.len()) == e
}

pub proof fn lemma_at_split(b: Seq<u8>, pos: int, x: Seq<u8>, y: Seq<u8>)
    ensures
        at(b, pos, x + y) <==> (at(b, pos, x) && at(b, pos + x.len(), y)),
{
    if at(b, pos, x + y) {
        let w = b.subrange(pos, pos + x.len() + y.len());
        assert(w == x + y);
        assert(b.subrange(pos, pos + x.len()) =~= w.subrange(0, x.len() as int));
        assert(w.subrange(0, x.len() as int) =~= x);
        assert(b.subrange(pos + x.len(), pos + x.len() + y.len()) =~= w.subrange(
            x.len() as int,
            w.len() as int,
        ));
        assert(w.subrange(x.len() as int, w.len() as int) =~= y);
    }
    if at(b, pos, x) && at(b, pos + x.len(), y) {
        assert(b.subrange(pos, pos + (x + y).len()) =~= b.subrange(pos, pos + x.len())
            + b.subrange(pos + x.len(), pos + x.len() + y.len()));
    }
}

pub open spec fn enc_u8(x: u8) -> Seq<u8> {
    seq![x]
}

pub open spec fn enc_u16(x: u16) -> Seq<u8> {
    spec_u16_to_le_bytes(x)
}

pub open spec fn enc_u32(x: u32) -> Seq<u8> {
    spec_u32_to_le_bytes(x)
}

pub open spec fn enc_u64(x: u64) -> Seq<u8> {
    spec_u64_to_le_bytes(x)
}

pub open spec fn enc_len(n: nat) -> Seq<u8> {
    enc_u64(n as u64)
}

pub open spec fn enc_blob(b: Seq<u8>) -> Seq<u8> {
    enc_len(b.len()) + b
}

pub open spec fn enc_text(s: Seq<char>) -> Seq<u8> {
    enc_blob(encode_utf8(s))
}

pub proof fn lemma_int_lens()
    ensures
        forall|x: u16| #[trigger] enc_u16(x).len() == 2,
        forall|x: u32| #[trigger] enc_u32(x).len() == 4,
        forall|x: u64| #[trigger] enc_u64(x).len() == 8,
{
    lemma_auto_spec_u16_to_from_le_bytes();
    lemma_auto_spec_u32_to_from_le_bytes();
    lemma_auto_spec_u64_to_from_le_bytes();
}

/// Appends `x` to `out`.
pub(crate) fn put_bytes(out: &mut Vec<u8>, x: &Vec<u8>)
    ensures
        final(out)@ == old(out)@ + x@,
{
    let ghost start = out@;
    let mut i: usize = 0;
    while i < x.len()
        invariant
            i <= x@.len(),
            out@ == start + x@.subrange(0, i as int),
        decreases x@.len() - i,
    {
        out.push(x[i]);
        i = i + 1;
        proof {
            assert(out@ =~= start + x@.subrange(0, i as int));
        }
    }
    proof {
        assert(x@.subrange(0, i as int) =~= x@);
    }
}

/// The `n` bytes of `b` from `pos` on.
pub(crate) fn take(b: &Vec<u8>, pos: usize, n: usize) -> (r: Vec<u8>)
    requires
        pos + n <= b@.len(),
    ensures
        r@ == b@.subrange(pos as int, pos + n),
{
    let mut r: Vec<u8> = Vec::new();
    let mut i: usize = 0;
    while i < n
        invariant
            pos + n <= b.len(),
            i <= n,
            r@ == b@.subrange(pos as int, pos + i),
        decreases n - i,
    {
        r.push(b[pos + i]);
        i = i + 1;
        proof {
            assert(r@ =~= b@.subrange(pos as int, pos + i));
        }
    }
    r
}

pub(crate) fn put_u8(out: &mut Vec<u8>, x: u8)
    ensures
        final(out)@ == old(out)@ + enc_u8(x),
{
    out.push(x);
    proof {
        assert(final(out)@ =~= old(out)@ + enc_u8(x));
    }
}

pub(crate) fn put_u16(out: &mut Vec<u8>, x: u16)
    ensures
        final(out)@ == old(out)@ + enc_u16(x),
{
    let v = u16_to_le_bytes(x);
    put_bytes(out, &v);
}

pub(crate) fn put_u32(out: &mut Vec<u8>, x: u32)
    ensures
        final(out)@ == old(out)@ + enc_u32(x),
{
    let v = u32_to_le_bytes(x);
    put_bytes(out, &v);
}

pub(crate) fn put_u64(out: &mut Vec<u8>, x: u64)
    ensures
        final(out)@ == old(out)@ + enc_u64(x),
{
    let v = u64_to_le_bytes(x);
    put_bytes(out, &v);
}

pub(crate) fn put_blob(out: &mut Vec<u8>, x: &Vec<u8>)
    ensures
        final(out)@ == old(out)@ + enc_blob(x@),
{
    put_u64(out, x.len() as u64);
    put_bytes(out, x);
    proof {
        assert(final(out)@ =~= old(out)@ + enc_blob(x@));
    }
}

pub(crate) fn put_text(out: &mut Vec<u8>, s: &String)
    ensures
        final(out)@ == old(out)@ + enc_text(s@),
{
    let v = s.as_str().as_bytes_vec();
    put_blob(out, &v);
}

pub(crate) fn read_u8(b: &Vec<u8>, pos: usize) -> (r: Option<(u8, usize)>)
    ensures
        r matches Some((v, n)) ==> n == pos + 1 && at(b@, pos as int, enc_u8(v)),
        forall|v: u8| #[trigger] at(b@, pos as int, enc_u8(v)) ==> r == Some((v, (pos + 1) as usize)),
{
    if pos < b.len() {
        let v = b[pos];
        proof {
            assert(b@.subrange(pos as int, pos + 1) =~= enc_u8(v));
            assert forall|w: u8| #[trigger] at(b@, pos as int, enc_u8(w)) implies w == v by {
                assert(b@.subrange(pos as int, pos + 1)[0] == w);
            }
        }
        Some((v, pos + 1))
    } else {
        None
    }
}

pub(crate) fn read_u16(b: &Vec<u8>, pos: usize) -> (r: Option<(u16, usize)>)
    ensures
        r matches Some((v, n)) ==> n == pos + 2 && at(b@, pos as int, enc_u16(v)),
        forall|v: u16| #[trigger] at(b@, pos as int, enc_u16(v)) ==> r == Some((v, (pos + 2) as usize)),
{
    proof {
        lemma_auto_spec_u16_to_from_le_bytes();
    }
    if pos <= b.len() && b.len() - pos >= 2 {
        let t = take(b, pos, 2);
        let v = u16_from_le_bytes(t.as_slice());
        Some((v, pos + 2))
    } else {
        None
    }
}

pub(crate) fn read_u32(b: &Vec<u8>, pos: usize) -> (r: Option<(u32, usize)>)
    ensures
        r matches Some((v, n)) ==> n == pos + 4 && at(b@, pos as int, enc_u32(v)),
        forall|v: u32| #[trigger] at(b@, pos as int, enc_u32(v)) ==> r == Some((v, (pos + 4) as usize)),
{
    proof {
        lemma_auto_spec_u32_to_from_le_bytes();
    }
    if pos <= b.len() && b.len() - pos >= 4 {
        let t = take(b, pos, 4);
        let v = u32_from_le_bytes(t.as_slice());
        Some((v, pos + 4))
    } else {
        None
    }
}

pub(crate) fn read_u64(b: &Vec<u8>, pos: usize) -> (r: Option<(u64, usize)>)
    ensures
        r matches Some((v, n)) ==> n == pos + 8 && at(b@, pos as int, enc_u64(v)),
        forall|v: u64| #[trigger] at(b@, pos as int, enc_u64(v)) ==> r == Some((v, (pos + 8) as usize)),
{
    proof {
        lemma_auto_spec_u64_to_from_le_bytes();
    }
    if pos <= b.len() && b.len() - pos >= 8 {
        let t = take(b, pos, 8);
        let v = u64_from_le_bytes(t.as_slice());
        Some((v, pos + 8))
    } else {
        None
    }
}

pub(crate) fn read_blob(b: &Vec<u8>, pos: usize) -> (r: Option<(Vec<u8>, usize)>)
    ensures
        r matches Some((v, n)) ==> n == pos + enc_blob(v@).len() && at(b@, pos as int, enc_blob(v@)),
        forall|m: Seq<u8>| #[trigger] at(b@, pos as int, enc_blob(m)) ==> (r matches Some((v, n)) && v@
            == m),
{
    proof {
        lemma_int_lens();
        assert forall|m: Seq<u8>| #[trigger] at(b@, pos as int, enc_blob(m)) implies at(
            b@,
            pos as int,
            enc_len(m.len()),
        ) && at(b@, pos + 8, m) by {
            lemma_at_split(b@, pos as int, enc_len(m.len()), m);
        }
    }
    match read_u64(b, pos) {
        None => None,
        Some((len, n)) => {
            if len as u128 <= (b.len() - n) as u128 {
                let data = take(b, n, len as usize);
                proof {
                    lemma_auto_spec_u64_to_from_le_bytes();
                    assert(len as nat == data@.len());
                    lemma_at_split(b@, pos as int, enc_len(data@.len()), data@);
                    assert forall|m: Seq<u8>| #[trigger] at(b@, pos as int, enc_blob(m)) implies data@
                        == m by {
                        assert(m.len() <= b@.len());
                        assert((m.len() as u64) as nat == m.len());
                    }
                }
                Some((data, n + len as usize))
            } else {
                proof {
                    assert forall|m: Seq<u8>| #[trigger] at(b@, pos as int, enc_blob(m)) implies false by {
                        assert(m.len() <= b@.len());
                        assert((m.len() as u64) as nat == m.len());
                    }
                }
                None
            }
        },
    }
}

pub(crate) fn read_text(b: &Vec<u8>, pos: usize) -> (r: Option<(String, usize)>)
    ensures
        r matches Some((v, n)) ==> n == pos + enc_text(v@).len() && at(b@, pos as int, enc_text(v@)),
        forall|m: Seq<char>| #[trigger] at(b@, pos as int, enc_text(m)) ==> (r matches Some((v, n)) && v@
            == m),
{
    match read_blob(b, pos) {
        None => {
            proof {
                assert forall|m: Seq<char>| #[trigger] at(b@, pos as int, enc_text(m)) implies false by {
                    assert(at(b@, pos as int, enc_blob(encode_utf8(m))));
                }
            }
            None
        },
        Some((data, n)) => {
            let ghost d = data@;
            let t = text_from_utf8(data);
            proof {
                assert forall|m: Seq<char>| #[trigger] at(b@, pos as int, enc_text(m)) implies (t matches Some(
                    v,
                ) && v@ == m) by {
                    assert(at(b@, pos as int, enc_blob(encode_utf8(m))));
                    assert(d == encode_utf8(m));
                    encode_utf8_valid_utf8(m);
                    encode_utf8_decode_utf8(m);
                }
            }
            match t {
                Some(v) => {
                    proof {
                        decode_utf8_encode_utf8(d);
                    }
                    Some((v, n))
                },
                None => None,
            }
        },
    }
}

pub open spec fn enc_opt_u16(x: Option<u16>) -> Seq<u8> {
    match x {
        None => enc_u8(0),
        Some(v) => enc_u8(1) + enc_u16(v),
    }
}

pub open spec fn enc_opt_u32(x: Option<u32>) -> Seq<u8> {
    match x {
        None => enc_u8(0),
        Some(v) => enc_u8(1) + enc_u32(v),
    }
}

pub(crate) fn put_opt_u16(out: &mut Vec<u8>, x: Option<u16>)
    ensures
        final(out)@ == old(out)@ + enc_opt_u16(x),
{
    match x {
        None => put_u8(out, 0),
        Some(v) => {
            put_u8(out, 1);
            put_u16(out, v);
            proof {
                assert(final(out)@ =~= old(out)@ + enc_opt_u16(x));
            }
        },
    }
}

pub(crate) fn put_opt_u32(out: &mut Vec<u8>, x: Option<u32>)
    ensures
        final(out)@ == old(out)@ + enc_opt_u32(x),
{
    match x {
        None => put_u8(out, 0),
        Some(v) => {
            put_u8(out, 1);
            put_u32(out, v);
            proof {
                assert(final(out)@ =~= old(out)@ + enc_opt_u32(x));
            }
        },
    }
}

pub(crate) fn read_opt_u16(b: &Vec<u8>, pos: usize) -> (r: Option<(Option<u16>, usize)>)
    ensures
        r matches Some((v, n)) ==> n == pos + enc_opt_u16(v).len() && at(b@, pos as int, enc_opt_u16(v)),
        forall|m: Option<u16>| #[trigger] at(b@, pos as int, enc_opt_u16(m)) ==> (r matches Some((v, n))
            && v == m),
{
    proof {
        lemma_int_lens();
        assert forall|m: Option<u16>| #[trigger] at(b@, pos as int, enc_opt_u16(m)) implies at(
            b@,
            pos as int,
            enc_u8(if m is Some { 1u8 } else { 0u8 }),
        ) && (m matches Some(v) ==> at(b@, pos + 1, enc_u16(v))) by {
            if let Some(v) = m {
                lemma_at_split(b@, pos as int, enc_u8(1), enc_u16(v));
            }
        }
    }
    match read_u8(b, pos) {
        Some((0, n)) => Some((None, n)),
        Some((1, n)) => match read_u16(b, n) {
            Some((v, n2)) => {
                proof {
                    lemma_at_split(b@, pos as int, enc_u8(1), enc_u16(v));
                }
                Some((Some(v), n2))
            },
            None => None,
        },
        _ => None,
    }
}

pub(crate) fn read_opt_u32(b: &Vec<u8>, pos: usize) -> (r: Option<(Option<u32>, usize)>)
    ensures
        r matches Some((v, n)) ==> n == pos + enc_opt_u32(v).len() && at(b@, pos as int, enc_opt_u32(v)),
        forall|m: Option<u32>| #[trigger] at(b@, pos as int, enc_opt_u32(m)) ==> (r matches Some((v, n))
            && v == m),
{
    proof {
        lemma_int_lens();
        assert forall|m: Option<u32>| #[trigger] at(b@, pos as int, enc_opt_u32(m)) implies at(
            b@,
            pos as int,
            enc_u8(if m is Some { 1u8 } else { 0u8 }),
        ) && (m matches Some(v) ==> at(b@, pos + 1, enc_u32(v))) by {
            if let Some(v) = m {
                lemma_at_split(b@, pos as int, enc_u8(1), enc_u32(v));
            }
        }
    }
    match read_u8(b, pos) {
        Some((0, n)) => Some((None, n)),
        Some((1, n)) => match read_u32(b, n) {
            Some((v, n2)) => {
                proof {
                    lemma_at_split(b@, pos as int, enc_u8(1), enc_u32(v));
                }
                Some((Some(v), n2))
            },
            None => None,
        },
        _ => None,
    }
}

pub open spec fn enc_amount(a: AmountExt) -> Seq<u8> {
    match a {
        AmountExt::Any => enc_u8(0),
        AmountExt::Normal(v) => enc_u8(1) + enc_u64(v),
        AmountExt::Milli(i, f) => enc_u8(2) + enc_u64(i) + enc_u16(f),
    }
}

pub(crate) fn put_amount(out: &mut Vec<u8>, a: AmountExt)
    ensures
        final(out)@ == old(out)@ + enc_amount(a),
{
    match a {
        AmountExt::Any => put_u8(out, 0),
        AmountExt::Normal(v) => {
            put_u8(out, 1);
            put_u64(out, v);
        },
        AmountExt::Milli(i, f) => {
            put_u8(out, 2);
            put_u64(out, i);
            put_u16(out, f);
        },
    }
    proof {
        assert(final(out)@ =~= old(out)@ + enc_amount(a));
    }
}

pub(crate) fn read_amount(b: &Vec<u8>, pos: usize) -> (r: Option<(AmountExt, usize)>)
    ensures
        r matches Some((v, n)) ==> n == pos + enc_amount(v).len() && at(b@, pos as int, enc_amount(v)),
        forall|m: AmountExt| #[trigger] at(b@, pos as int, enc_amount(m)) ==> (r matches Some((v, n))
            && v == m),
{
    proof {
        lemma_int_lens();
        assert forall|m: AmountExt| #[trigger] at(b@, pos as int, enc_amount(m)) implies match m {
            AmountExt::Any => at(b@, pos as int, enc_u8(0)),
            AmountExt::Normal(v) => at(b@, pos as int, enc_u8(1)) && at(b@, pos + 1, enc_u64(v)),
            AmountExt::Milli(i, f) => at(b@, pos as int, enc_u8(2)) && at(b@, pos + 1, enc_u64(i))
                && at(b@, pos + 9, enc_u16(f)),
        } by {
            match m {
                AmountExt::Any => {},
                AmountExt::Normal(v) => {
                    lemma_at_split(b@, pos as int, enc_u8(1), enc_u64(v));
                },
                AmountExt::Milli(i, f) => {
                    lemma_at_split(b@, pos as int, enc_u8(2) + enc_u64(i), enc_u16(f));
                    lemma_at_split(b@, pos as int, enc_u8(2), enc_u64(i));
                },
            }
        }
    }
    match read_u8(b, pos) {
        Some((0, n)) => Some((AmountExt::Any, n)),
        Some((1, n)) => match read_u64(b, n) {
            Some((v, n2)) => {
                proof {
                    lemma_at_split(b@, pos as int, enc_u8(1), enc_u64(v));
                }
                Some((AmountExt::Normal(v), n2))
            },
            None => None,
        },
        Some((2, n)) => match read_u64(b, n) {
            Some((i, n2)) => match read_u16(b, n2) {
                Some((f, n3)) => {
                    proof {
                        lemma_at_split(b@, pos as int, enc_u8(2), enc_u64(i));
                        lemma_at_split(b@, pos as int, enc_u8(2) + enc_u64(i), enc_u16(f));
                    }
                    Some((AmountExt::Milli(i, f), n3))
                },
                None => None,
            },
            None => None,
        },
        _ => None,
    }
}

pub open spec fn enc_recurrent(x: Recurrent) -> Seq<u8> {
    match x {
        Recurrent::NonRecurrent => enc_u8(0),
        Recurrent::Seconds(v) => enc_u8(1) + enc_u64(v),
        Recurrent::Months(v) => enc_u8(2) + enc_u8(v),
        Recurrent::Years(v) => enc_u8(3) + enc_u8(v),
    }
}

pub(crate) fn put_recurrent(out: &mut Vec<u8>, x: Recurrent)
    ensures
        final(out)@ == old(out)@ + enc_recurrent(x),
{
    match x {
        Recurrent::NonRecurrent => put_u8(out, 0),
        Recurrent::Seconds(v) => {
            put_u8(out, 1);
            put_u64(out, v);
        },
        Recurrent::Months(v) => {
            put_u8(out, 2);
            put_u8(out, v);
        },
        Recurrent::Years(v) => {
            put_u8(out, 3);
            put_u8(out, v);
        },
    }
    proof {
        assert(final(out)@ =~= old(out)@ + enc_recurrent(x));
    }
}

pub(crate) fn read_recurrent(b: &Vec<u8>, pos: usize) -> (r: Option<(Recurrent, usize)>)
    ensures
        r matches Some((v, n)) ==> n == pos + enc_recurrent(v).len() && at(b@, pos as int, enc_recurrent(v)),
        forall|m: Recurrent| #[trigger] at(b@, pos as int, enc_recurrent(m)) ==> (r matches Some((v, n))
            && v == m),
{
    proof {
        lemma_int_lens();
        assert forall|m: Recurrent| #[trigger] at(b@, pos as int, enc_recurrent(m)) implies match m {
            Recurrent::NonRecurrent => at(b@, pos as int, enc_u8(0)),
            Recurrent::Seconds(v) => at(b@, pos as int, enc_u8(1)) && at(b@, pos + 1, enc_u64(v)),
            Recurrent::Months(v) => at(b@, pos as int, enc_u8(2)) && at(b@, pos + 1, enc_u8(v)),
            Recurrent::Years(v) => at(b@, pos as int, enc_u8(3)) && at(b@, pos + 1, enc_u8(v)),
        } by {
            match m {
                Recurrent::NonRecurrent => {},
                Recurrent::Seconds(v) => lemma_at_split(b@, pos as int, enc_u8(1), enc_u64(v)),
                Recurrent::Months(v) => lemma_at_split(b@, pos as int, enc_u8(2), enc_u8(v)),
                Recurrent::Years(v) => lemma_at_split(b@, pos as int, enc_u8(3), enc_u8(v)),
            }
        }
    }
    match read_u8(b, pos) {
        Some((0, n)) => Some((Recurrent::NonRecurrent, n)),
        Some((1, n)) => match read_u64(b, n) {
            Some((v, n2)) => {
                proof {
                    lemma_at_split(b@, pos as int, enc_u8(1), enc_u64(v));
                }
                Some((Recurrent::Seconds(v), n2))
            },
            None => None,
        },
        Some((2, n)) => match read_u8(b, n) {
            Some((v, n2)) => {
                proof {
                    lemma_at_split(b@, pos as int, enc_u8(2), enc_u8(v));
                }
                Some((Recurrent::Months(v), n2))
            },
            None => None,
        },
        Some((3, n)) => match read_u8(b, n) {
            Some((v, n2)) => {
                proof {
                    lemma_at_split(b@, pos as int, enc_u8(3), enc_u8(v));
                }
                Some((Recurrent::Years(v), n2))
            },
            None => None,
        },
        _ => None,
    }
}

pub open spec fn enc_network(x: Network) -> Seq<u8> {
    enc_u8(
        match x {
            Network::Mainnet => 0,
            Network::Testnet3 => 1,
            Network::Regtest => 2,
            Network::Signet => 3,
            Network::LiquidV1 => 4,
        },
    )
}

pub(crate) fn put_network(out: &mut Vec<u8>, x: Network)
    ensures
        final(out)@ == old(out)@ + enc_network(x),
{
    let t: u8 = match x {
        Network::Mainnet => 0,
        Network::Testnet3 => 1,
        Network::Regtest => 2,
        Network::Signet => 3,
        Network::LiquidV1 => 4,
    };
    put_u8(out, t);
}

pub(crate) fn read_network(b: &Vec<u8>, pos: usize) -> (r: Option<(Network, usize)>)
    ensures
        r matches Some((v, n)) ==> n == pos + enc_network(v).len() && at(b@, pos as int, enc_network(v)),
        forall|m: Network| #[trigger] at(b@, pos as int, enc_network(m)) ==> (r matches Some((v, n))
            && v == m),
{
    match read_u8(b, pos) {
        Some((0, n)) => Some((Network::Mainnet, n)),
        Some((1, n)) => Some((Network::Testnet3, n)),
        Some((2, n)) => Some((Network::Regtest, n)),
        Some((3, n)) => Some((Network::Signet, n)),
        Some((4, n)) => Some((Network::LiquidV1, n)),
        _ => None,
    }
}

pub open spec fn enc_quantity(q: Quantity) -> Seq<u8> {
    enc_u32(q.min) + enc_opt_u32(q.max) + enc_u32(q.default)
}

pub(crate) fn put_quantity(out: &mut Vec<u8>, q: Quantity)
    ensures
        final(out)@ == old(out)@ + enc_quantity(q),
{
    put_u32(out, q.min);
    put_opt_u32(out, q.max);
    put_u32(out, q.default);
    proof {
        assert(final(out)@ =~= old(out)@ + enc_quantity(q));
    }
}

pub(crate) fn read_quantity(b: &Vec<u8>, pos: usize) -> (r: Option<(Quantity, usize)>)
    ensures
        r matches Some((v, n)) ==> n == pos + enc_quantity(v).len() && at(b@, pos as int, enc_quantity(v)),
        forall|m: Quantity| #[trigger] at(b@, pos as int, enc_quantity(m)) ==> (r matches Some((v, n))
            && v == m),
{
    proof {
        lemma_int_lens();
        assert forall|m: Quantity| #[trigger] at(b@, pos as int, enc_quantity(m)) implies at(
            b@,
            pos as int,
            enc_u32(m.min),
        ) && at(b@, pos + 4, enc_opt_u32(m.max)) && at(
            b@,
            pos + 4 + enc_opt_u32(m.max).len(),
            enc_u32(m.default),
        ) by {
            lemma_at_split(b@, pos as int, enc_u32(m.min) + enc_opt_u32(m.max), enc_u32(m.default));
            lemma_at_split(b@, pos as int, enc_u32(m.min), enc_opt_u32(m.max));
        }
    }
    let (min, n1) = match read_u32(b, pos) {
        Some(x) => x,
        None => return None,
    };
    let (max, n2) = match read_opt_u32(b, n1) {
        Some(x) => x,
        None => return None,
    };
    let (default, n3) = match read_u32(b, n2) {
        Some(x) => x,
        None => return None,
    };
    let q = Quantity { min, max, default };
    proof {
        lemma_at_split(b@, pos as int, enc_u32(min) + enc_opt_u32(max), enc_u32(default));
        lemma_at_split(b@, pos as int, enc_u32(min), enc_opt_u32(max));
    }
    Some((q, n3))
}

pub open spec fn enc_currency(c: CurrencyView) -> Seq<u8> {
    enc_u8(c.0.0) + enc_u8(c.0.1) + enc_u8(c.0.2) + enc_u32(c.1) + enc_u8(c.2) + enc_text(c.3)
}

pub(crate) fn put_currency(out: &mut Vec<u8>, c: &CurrencyData)
    ensures
        final(out)@ == old(out)@ + enc_currency(c@),
{
    put_u8(out, c.iso4217.0);
    put_u8(out, c.iso4217.1);
    put_u8(out, c.iso4217.2);
    put_u32(out, c.coins);
    put_u8(out, c.fractions);
    put_text(out, &c.price_provider);
    proof {
        assert(final(out)@ =~= old(out)@ + enc_currency(c@));
    }
}

pub(crate) fn read_currency(b: &Vec<u8>, pos: usize) -> (r: Option<(CurrencyData, usize)>)
    ensures
        r matches Some((v, n)) ==> n == pos + enc_currency(v@).len() && at(b@, pos as int, enc_currency(v@)),
        forall|m: CurrencyView| #[trigger] at(b@, pos as int, enc_currency(m)) ==> (r matches Some((v, n))
            && v@ == m),
{
    proof {
        lemma_int_lens();
        assert forall|m: CurrencyView| #[trigger] at(b@, pos as int, enc_currency(m)) implies at(
            b@,
            pos as int,
            enc_u8(m.0.0),
        ) && at(b@, pos + 1, enc_u8(m.0.1)) && at(b@, pos + 2, enc_u8(m.0.2)) && at(
            b@,
            pos + 3,
            enc_u32(m.1),
        ) && at(b@, pos + 7, enc_u8(m.2)) && at(b@, pos + 8, enc_text(m.3)) by {
            let a = enc_u8(m.0.0);
            let b1 = a + enc_u8(m.0.1);
            let c1 = b1 + enc_u8(m.0.2);
            let d1 = c1 + enc_u32(m.1);
            let e1 = d1 + enc_u8(m.2);
            lemma_at_split(b@, pos as int, e1, enc_text(m.3));
            lemma_at_split(b@, pos as int, d1, enc_u8(m.2));
            lemma_at_split(b@, pos as int, c1, enc_u32(m.1));
            lemma_at_split(b@, pos as int, b1, enc_u8(m.0.2));
            lemma_at_split(b@, pos as int, a, enc_u8(m.0.1));
        }
    }
    let (c0, n0) = match read_u8(b, pos) {
        Some(x) => x,
        None => return None,
    };
    let (c1, n1) = match read_u8(b, n0) {
        Some(x) => x,
        None => return None,
    };
    let (c2, n2) = match read_u8(b, n1) {
        Some(x) => x,
        None => return None,
    };
    let (coins, n3) = match read_u32(b, n2) {
        Some(x) => x,
        None => return None,
    };
    let (fractions, n4) = match read_u8(b, n3) {
        Some(x) => x,
        None => return None,
    };
    let (price_provider, n5) = match read_text(b, n4) {
        Some(x) => x,
        None => return None,
    };
    let c = CurrencyData { iso4217: Iso4217(c0, c1, c2), coins, fractions, price_provider };
    proof {
        let a = enc_u8(c0);
        let b1 = a + enc_u8(c1);
        let c1s = b1 + enc_u8(c2);
        let d1 = c1s + enc_u32(coins);
        let e1 = d1 + enc_u8(fractions);
        lemma_at_split(b@, pos as int, a, enc_u8(c1));
        lemma_at_split(b@, pos as int, b1, enc_u8(c2));
        lemma_at_split(b@, pos as int, c1s, enc_u32(coins));
        lemma_at_split(b@, pos as int, d1, enc_u8(fractions));
        lemma_at_split(b@, pos as int, e1, enc_text(c@.3));
    }
    Some((c, n5))
}

pub open spec fn enc_details(d: DetailsView) -> Seq<u8> {
    enc_blob(d.0) + enc_text(d.1)
}

pub(crate) fn put_details(out: &mut Vec<u8>, d: &Details)
    ensures
        final(out)@ == old(out)@ + enc_details(d@),
{
    put_blob(out, &d.commitment);
    put_text(out, &d.source);
    proof {
        assert(final(out)@ =~= old(out)@ + enc_details(d@));
    }
}

pub(crate) fn read_details(b: &Vec<u8>, pos: usize) -> (r: Option<(Details, usize)>)
    ensures
        r matches Some((v, n)) ==> n == pos + enc_details(v@).len() && at(b@, pos as int, enc_details(v@)),
        forall|m: DetailsView| #[trigger] at(b@, pos as int, enc_details(m)) ==> (r matches Some((v, n))
            && v@ == m),
{
    proof {
        assert forall|m: DetailsView| #[trigger] at(b@, pos as int, enc_details(m)) implies at(
            b@,
            pos as int,
            enc_blob(m.0),
        ) && at(b@, pos + enc_blob(m.0).len(), enc_text(m.1)) by {
            lemma_at_split(b@, pos as int, enc_blob(m.0), enc_text(m.1));
        }
    }
    let (commitment, n1) = match read_blob(b, pos) {
        Some(x) => x,
        None => return None,
    };
    let (source, n2) = match read_text(b, n1) {
        Some(x) => x,
        None => return None,
    };
    let d = Details { commitment, source };
    proof {
        lemma_at_split(b@, pos as int, enc_blob(d@.0), enc_text(d@.1));
    }
    Some((d, n2))
}

pub open spec fn enc_pair(p: (Seq<u8>, Seq<u8>)) -> Seq<u8> {
    enc_blob(p.0) + enc_blob(p.1)
}

pub(crate) fn put_pair(out: &mut Vec<u8>, a: &Vec<u8>, c: &Vec<u8>)
    ensures
        final(out)@ == old(out)@ + enc_pair((a@, c@)),
{
    put_blob(out, a);
    put_blob(out, c);
    proof {
        assert(final(out)@ =~= old(out)@ + enc_pair((a@, c@)));
    }
}

pub(crate) fn read_pair(b: &Vec<u8>, pos: usize) -> (r: Option<((Vec<u8>, Vec<u8>), usize)>)
    ensures
        r matches Some((v, n)) ==> n == pos + enc_pair((v.0@, v.1@)).len() && at(
            b@,
            pos as int,
            enc_pair((v.0@, v.1@)),
        ),
        forall|m: (Seq<u8>, Seq<u8>)| #[trigger] at(b@, pos as int, enc_pair(m)) ==> (r matches Some(
            (v, n),
        ) && v.0@ == m.0 && v.1@ == m.1),
{
    proof {
        assert forall|m: (Seq<u8>, Seq<u8>)| #[trigger] at(b@, pos as int, enc_pair(m)) implies at(
            b@,
            pos as int,
            enc_blob(m.0),
        ) && at(b@, pos + enc_blob(m.0).len(), enc_blob(m.1)) by {
            lemma_at_split(b@, pos as int, enc_blob(m.0), enc_blob(m.1));
        }
    }
    let (x, n1) = match read_blob(b, pos) {
        Some(x) => x,
        None => return None,
    };
    let (y, n2) = match read_blob(b, n1) {
        Some(x) => x,
        None => return None,
    };
    proof {
        lemma_at_split(b@, pos as int, enc_blob(x@), enc_blob(y@));
    }
    Some(((x, y), n2))
}

pub open spec fn enc_endpoint(e: EndpointView) -> Seq<u8> {
    match e {
        EndpointView::Storm(s) => enc_u8(0) + enc_text(s),
        EndpointView::RgbHttpJsonRpc(s) => enc_u8(1) + enc_text(s),
    }
}

pub(crate) fn put_endpoint(out: &mut Vec<u8>, e: &ConsignmentEndpoint)
    ensures
        final(out)@ == old(out)@ + enc_endpoint(e@),
{
    match e {
        ConsignmentEndpoint::Storm(s) => {
            put_u8(out, 0);
            put_text(out, s);
        },
        ConsignmentEndpoint::RgbHttpJsonRpc(s) => {
            put_u8(out, 1);
            put_text(out, s);
        },
    }
    proof {
        assert(final(out)@ =~= old(out)@ + enc_endpoint(e@));
    }
}

pub(crate) fn read_endpoint(b: &Vec<u8>, pos: usize) -> (r: Option<(ConsignmentEndpoint, usize)>)
    ensures
        r matches Some((v, n)) ==> n == pos + enc_endpoint(v@).len() && at(b@, pos as int, enc_endpoint(v@)),
        forall|m: EndpointView| #[trigger] at(b@, pos as int, enc_endpoint(m)) ==> (r matches Some((v, n))
            && v@ == m),
{
    proof {
        assert forall|m: EndpointView| #[trigger] at(b@, pos as int, enc_endpoint(m)) implies match m {
            EndpointView::Storm(s) => at(b@, pos as int, enc_u8(0)) && at(b@, pos + 1, enc_text(s)),
            EndpointView::RgbHttpJsonRpc(s) => at(b@, pos as int, enc_u8(1)) && at(b@, pos + 1, enc_text(s)),
        } by {
            match m {
                EndpointView::Storm(s) => lemma_at_split(b@, pos as int, enc_u8(0), enc_text(s)),
                EndpointView::RgbHttpJsonRpc(s) => lemma_at_split(b@, pos as int, enc_u8(1), enc_text(s)),
            }
        }
    }
    match read_u8(b, pos) {
        Some((0, n)) => match read_text(b, n) {
            Some((s, n2)) => {
                proof {
                    lemma_at_split(b@, pos as int, enc_u8(0), enc_text(s@));
                }
                Some((ConsignmentEndpoint::Storm(s), n2))
            },
            None => None,
        },
        Some((1, n)) => match read_text(b, n) {
            Some((s, n2)) => {
                proof {
                    lemma_at_split(b@, pos as int, enc_u8(1), enc_text(s@));
                }
                Some((ConsignmentEndpoint::RgbHttpJsonRpc(s), n2))
            },
            None => None,
        },
        _ => None,
    }
}

proof fn lemma_enc_endpoint_nonempty(e: EndpointView)
    ensures
        enc_endpoint(e).len() >= 1,
{
}

pub open spec fn enc_endpoints(s: Seq<EndpointView>) -> Seq<u8>
    decreases s.len(),
{
    if s.len() == 0 {
        Seq::empty()
    } else {
        enc_endpoint(s[0]) + enc_endpoints(s.drop_first())
    }
}

pub open spec fn enc_endpoint_list(s: Seq<EndpointView>) -> Seq<u8> {
    enc_len(s.len()) + enc_endpoints(s)
}

proof fn lemma_enc_endpoints_push(s: Seq<EndpointView>, x: EndpointView)
    ensures
        enc_endpoints(s.push(x)) == enc_endpoints(s) + enc_endpoint(x),
    decreases s.len(),
{
    if s.len() == 0 {
        assert(s.push(x).drop_first() =~= s);
        assert(enc_endpoints(s.push(x)) =~= enc_endpoints(s) + enc_endpoint(x));
    } else {
        lemma_enc_endpoints_push(s.drop_first(), x);
        assert(s.push(x).drop_first() =~= s.drop_first().push(x));
        assert(enc_endpoints(s.push(x)) =~= enc_endpoints(s) + enc_endpoint(x));
    }
}

proof fn lemma_enc_endpoints_len(s: Seq<EndpointView>)
    ensures
        enc_endpoints(s).len() >= s.len(),
    decreases s.len(),
{
    if s.len() > 0 {
        lemma_enc_endpoints_len(s.drop_first());
        lemma_enc_endpoint_nonempty(s[0]);
    }
}

proof fn lemma_enc_endpoints_skip(s: Seq<EndpointView>, k: int)
    requires
        0 <= k < s.len(),
    ensures
        enc_endpoints(s.skip(k)) == enc_endpoint(s[k]) + enc_endpoints(s.skip(k + 1)),
{
    assert(s.skip(k).drop_first() =~= s.skip(k + 1));
    assert(s.skip(k)[0] == s[k]);
}

pub(crate) fn put_endpoints(out: &mut Vec<u8>, v: &Vec<ConsignmentEndpoint>)
    ensures
        final(out)@ == old(out)@ + enc_endpoint_list(endpoints_view(v@)),
{
    let ghost start = out@;
    put_u64(out, v.len() as u64);
    let mut i: usize = 0;
    while i < v.len()
        invariant
            i <= v@.len(),
            out@ == start + enc_len(v@.len()) + enc_endpoints(endpoints_view(v@).take(i as int)),
        decreases v@.len() - i,
    {
        put_endpoint(out, &v[i]);
        proof {
            lemma_enc_endpoints_push(endpoints_view(v@).take(i as int), v@[i as int]@);
            assert(endpoints_view(v@).take(i as int).push(v@[i as int]@) =~= endpoints_view(v@).take(i + 1));
        }
        i = i + 1;
    }
    proof {
        assert(endpoints_view(v@).take(i as int) =~= endpoints_view(v@));
        assert(out@ =~= start + enc_endpoint_list(endpoints_view(v@)));
    }
}

pub(crate) fn read_endpoints(b: &Vec<u8>, pos: usize) -> (r: Option<(Vec<ConsignmentEndpoint>, usize)>)
    ensures
        r matches Some((v, n)) ==> n == pos + enc_endpoint_list(endpoints_view(v@)).len() && at(
            b@,
            pos as int,
            enc_endpoint_list(endpoints_view(v@)),
        ),
        forall|m: Seq<EndpointView>| #[trigger] at(b@, pos as int, enc_endpoint_list(m)) ==> (r matches Some(
            (v, n),
        ) && endpoints_view(v@) == m),
{
    proof {
        lemma_int_lens();
        assert forall|m: Seq<EndpointView>| #[trigger] at(b@, pos as int, enc_endpoint_list(m)) implies at(
            b@,
            pos as int,
            enc_u64(m.len() as u64),
        ) && at(b@, pos + 8, enc_endpoints(m)) && m.len() <= u64::MAX by {
            lemma_at_split(b@, pos as int, enc_len(m.len()), enc_endpoints(m));
            lemma_enc_endpoints_len(m);
            assert(b@.len() == b.len());
        }
    }
    let (count, start) = match read_u64(b, pos) {
        Some(x) => x,
        None => return None,
    };
    let mut acc: Vec<ConsignmentEndpoint> = Vec::new();
    let mut p = start;
    let mut k: u64 = 0;
    proof {
        assert(endpoints_view(acc@) =~= Seq::<EndpointView>::empty());
        assert(b@.subrange(start as int, start as int) =~= Seq::<u8>::empty());
        assert forall|m: Seq<EndpointView>| #[trigger] at(b@, pos as int, enc_endpoint_list(m)) implies endpoints_view(acc@)
            == m.take(0) && m.skip(0) == m by {
            assert(m.take(0) =~= Seq::<EndpointView>::empty());
            assert(m.skip(0) =~= m);
        }
    }
    while k < count
        invariant
            start == pos + 8,
            at(b@, pos as int, enc_u64(count)),
            acc@.len() == k,
            k <= count,
            at(b@, start as int, enc_endpoints(endpoints_view(acc@))),
            p == start + enc_endpoints(endpoints_view(acc@)).len(),
            forall|m: Seq<EndpointView>| #[trigger] at(b@, pos as int, enc_endpoint_list(m)) ==> m.len() == count
                && endpoints_view(acc@) == m.take(k as int) && at(b@, p as int, enc_endpoints(m.skip(k as int))),
        decreases count - k,
    {
        proof {
            assert forall|m: Seq<EndpointView>| #[trigger] at(b@, pos as int, enc_endpoint_list(m)) implies at(
                b@,
                p as int,
                enc_endpoint(m[k as int]),
            ) && at(b@, p + enc_endpoint(m[k as int]).len(), enc_endpoints(m.skip(k + 1))) by {
                lemma_enc_endpoints_skip(m, k as int);
                lemma_at_split(b@, p as int, enc_endpoint(m[k as int]), enc_endpoints(m.skip(k + 1)));
            }
        }
        let (item, at2) = match read_endpoint(b, p) {
            Some(x) => x,
            None => return None,
        };
        proof {
            lemma_enc_endpoints_push(endpoints_view(acc@), item@);
            lemma_at_split(b@, start as int, enc_endpoints(endpoints_view(acc@)), enc_endpoint(item@));
        }
        let ghost old_acc = acc@;
        acc.push(item);
        proof {
            assert(endpoints_view(acc@) =~= endpoints_view(old_acc).push(item@));
            assert forall|m: Seq<EndpointView>| #[trigger] at(b@, pos as int, enc_endpoint_list(m)) implies endpoints_view(
                acc@,
            ) == m.take(k + 1) && at(b@, at2 as int, enc_endpoints(m.skip(k + 1))) by {
                assert(m.take(k + 1) =~= m.take(k as int).push(m[k as int]));
            }
        }
        p = at2;
        k = k + 1;
    }
    proof {
        lemma_at_split(b@, pos as int, enc_u64(count), enc_endpoints(endpoints_view(acc@)));
        assert(enc_len(endpoints_view(acc@).len()) == enc_u64(count));
        assert forall|m: Seq<EndpointView>| #[trigger] at(b@, pos as int, enc_endpoint_list(m)) implies endpoints_view(acc@)
            == m by {
            assert(m.take(k as int) =~= m);
        }
    }
    Some((acc, p))
}

pub open spec fn enc_hint(h: PathHintView) -> Seq<u8> {
    enc_blob(h.0) + enc_u64(h.1) + enc_u32(h.2) + enc_u32(h.3) + enc_u16(h.4)
}

proof fn lemma_enc_hint_nonempty(h: PathHintView)
    ensures
        enc_hint(h).len() >= 1,
{
    lemma_int_lens();
}

pub(crate) fn put_hint(out: &mut Vec<u8>, h: &LnPathHint)
    ensures
        final(out)@ == old(out)@ + enc_hint(h@),
{
    put_blob(out, &h.node_id);
    put_u64(out, h.short_channel_id);
    put_u32(out, h.fee_base_msat);
    put_u32(out, h.fee_proportional_millionths);
    put_u16(out, h.cltv_expiry_delta);
    proof {
        assert(final(out)@ =~= old(out)@ + enc_hint(h@));
    }
}

pub(crate) fn read_hint(b: &Vec<u8>, pos: usize) -> (r: Option<(LnPathHint, usize)>)
    ensures
        r matches Some((v, n)) ==> n == pos + enc_hint(v@).len() && at(b@, pos as int, enc_hint(v@)),
        forall|m: PathHintView| #[trigger] at(b@, pos as int, enc_hint(m)) ==> (r matches Some((v, n))
            && v@ == m),
{
    proof {
        lemma_int_lens();
        assert forall|m: PathHintView| #[trigger] at(b@, pos as int, enc_hint(m)) implies at(
            b@,
            pos as int,
            enc_blob(m.0),
        ) && at(b@, pos + enc_blob(m.0).len(), enc_u64(m.1)) && at(
            b@,
            pos + enc_blob(m.0).len() + 8,
            enc_u32(m.2),
        ) && at(b@, pos + enc_blob(m.0).len() + 12, enc_u32(m.3)) && at(
            b@,
            pos + enc_blob(m.0).len() + 16,
            enc_u16(m.4),
        ) by {
            let a = enc_blob(m.0);
            let b1 = a + enc_u64(m.1);
            let c1 = b1 + enc_u32(m.2);
            let d1 = c1 + enc_u32(m.3);
            lemma_at_split(b@, pos as int, d1, enc_u16(m.4));
            lemma_at_split(b@, pos as int, c1, enc_u32(m.3));
            lemma_at_split(b@, pos as int, b1, enc_u32(m.2));
            lemma_at_split(b@, pos as int, a, enc_u64(m.1));
        }
    }
    let (node_id, n1) = match read_blob(b, pos) {
        Some(x) => x,
        None => return None,
    };
    let (short_channel_id, n2) = match read_u64(b, n1) {
        Some(x) => x,
        None => return None,
    };
    let (fee_base_msat, n3) = match read_u32(b, n2) {
        Some(x) => x,
        None => return None,
    };
    let (fee_proportional_millionths, n4) = match read_u32(b, n3) {
        Some(x) => x,
        None => return None,
    };
    let (cltv_expiry_delta, n5) = match read_u16(b, n4) {
        Some(x) => x,
        None => return None,
    };
    let h = LnPathHint {
        node_id,
        short_channel_id,
        fee_base_msat,
        fee_proportional_millionths,
        cltv_expiry_delta,
    };
    proof {
        let a = enc_blob(h@.0);
        let b1 = a + enc_u64(h@.1);
        let c1 = b1 + enc_u32(h@.2);
        let d1 = c1 + enc_u32(h@.3);
        lemma_at_split(b@, pos as int, a, enc_u64(h@.1));
        lemma_at_split(b@, pos as int, b1, enc_u32(h@.2));
        lemma_at_split(b@, pos as int, c1, enc_u32(h@.3));
        lemma_at_split(b@, pos as int, d1, enc_u16(h@.4));
    }
    Some((h, n5))
}

pub open spec fn enc_hints(s: Seq<PathHintView>) -> Seq<u8>
    decreases s.len(),
{
    if s.len() == 0 {
        Seq::empty()
    } else {
        enc_hint(s[0]) + enc_hints(s.drop_first())
    }
}

pub open spec fn enc_hint_list(s: Seq<PathHintView>) -> Seq<u8> {
    enc_len(s.len()) + enc_hints(s)
}

proof fn lemma_enc_hints_push(s: Seq<PathHintView>, x: PathHintView)
    ensures
        enc_hints(s.push(x)) == enc_hints(s) + enc_hint(x),
    decreases s.len(),
{
    if s.len() == 0 {
        assert(s.push(x).drop_first() =~= s);
        assert(enc_hints(s.push(x)) =~= enc_hints(s) + enc_hint(x));
    } else {
        lemma_enc_hints_push(s.drop_first(), x);
        assert(s.push(x).drop_first() =~= s.drop_first().push(x));
        assert(enc_hints(s.push(x)) =~= enc_hints(s) + enc_hint(x));
    }
}

proof fn lemma_enc_hints_len(s: Seq<PathHintView>)
    ensures
        enc_hints(s).len() >= s.len(),
    decreases s.len(),
{
    if s.len() > 0 {
        lemma_enc_hints_len(s.drop_first());
        lemma_enc_hint_nonempty(s[0]);
    }
}

proof fn lemma_enc_hints_skip(s: Seq<PathHintView>, k: int)
    requires
        0 <= k < s.len(),
    ensures
        enc_hints(s.skip(k)) == enc_hint(s[k]) + enc_hints(s.skip(k + 1)),
{
    assert(s.skip(k).drop_first() =~= s.skip(k + 1));
    assert(s.skip(k)[0] == s[k]);
}

pub(crate) fn put_hints(out: &mut Vec<u8>, v: &Vec<LnPathHint>)
    ensures
        final(out)@ == old(out)@ + enc_hint_list(hints_view(v@)),
{
    let ghost start = out@;
    put_u64(out, v.len() as u64);
    let mut i: usize = 0;
    while i < v.len()
        invariant
            i <= v@.len(),
            out@ == start + enc_len(v@.len()) + enc_hints(hints_view(v@).take(i as int)),
        decreases v@.len() - i,
    {
        put_hint(out, &v[i]);
        proof {
            lemma_enc_hints_push(hints_view(v@).take(i as int), v@[i as int]@);
            assert(hints_view(v@).take(i as int).push(v@[i as int]@) =~= hints_view(v@).take(i + 1));
        }
        i = i + 1;
    }
    proof {
        assert(hints_view(v@).take(i as int) =~= hints_view(v@));
        assert(out@ =~= start + enc_hint_list(hints_view(v@)));
    }
}

pub(crate) fn read_hints(b: &Vec<u8>, pos: usize) -> (r: Option<(Vec<LnPathHint>, usize)>)
    ensures
        r matches Some((v, n)) ==> n == pos + enc_hint_list(hints_view(v@)).len() && at(
            b@,
            pos as int,
            enc_hint_list(hints_view(v@)),
        ),
        forall|m: Seq<PathHintView>| #[trigger] at(b@, pos as int, enc_hint_list(m)) ==> (r matches Some(
            (v, n),
        ) && hints_view(v@) == m),
{
    proof {
        lemma_int_lens();
        assert forall|m: Seq<PathHintView>| #[trigger] at(b@, pos as int, enc_hint_list(m)) implies at(
            b@,
            pos as int,
            enc_u64(m.len() as u64),
        ) && at(b@, pos + 8, enc_hints(m)) && m.len() <= u64::MAX by {
            lemma_at_split(b@, pos as int, enc_len(m.len()), enc_hints(m));
            lemma_enc_hints_len(m);
            assert(b@.len() == b.len());
        }
    }
    let (count, start) = match read_u64(b, pos) {
        Some(x) => x,
        None => return None,
    };
    let mut acc: Vec<LnPathHint> = Vec::new();
    let mut p = start;
    let mut k: u64 = 0;
    proof {
        assert(hints_view(acc@) =~= Seq::<PathHintView>::empty());
        assert(b@.subrange(start as int, start as int) =~= Seq::<u8>::empty());
        assert forall|m: Seq<PathHintView>| #[trigger] at(b@, pos as int, enc_hint_list(m)) implies hints_view(acc@)
            == m.take(0) && m.skip(0) == m by {
            assert(m.take(0) =~= Seq::<PathHintView>::empty());
            assert(m.skip(0) =~= m);
        }
    }
    while k < count
        invariant
            start == pos + 8,
            at(b@, pos as int, enc_u64(count)),
            acc@.len() == k,
            k <= count,
            at(b@, start as int, enc_hints(hints_view(acc@))),
            p == start + enc_hints(hints_view(acc@)).len(),
            forall|m: Seq<PathHintView>| #[trigger] at(b@, pos as int, enc_hint_list(m)) ==> m.len() == count
                && hints_view(acc@) == m.take(k as int) && at(b@, p as int, enc_hints(m.skip(k as int))),
        decreases count - k,
    {
        proof {
            assert forall|m: Seq<PathHintView>| #[trigger] at(b@, pos as int, enc_hint_list(m)) implies at(
                b@,
                p as int,
                enc_hint(m[k as int]),
            ) && at(b@, p + enc_hint(m[k as int]).len(), enc_hints(m.skip(k + 1))) by {
                lemma_enc_hints_skip(m, k as int);
                lemma_at_split(b@, p as int, enc_hint(m[k as int]), enc_hints(m.skip(k + 1)));
            }
        }
        let (item, at2) = match read_hint(b, p) {
            Some(x) => x,
            None => return None,
        };
        proof {
            lemma_enc_hints_push(hints_view(acc@), item@);
            lemma_at_split(b@, start as int, enc_hints(hints_view(acc@)), enc_hint(item@));
        }
        let ghost old_acc = acc@;
        acc.push(item);
        proof {
            assert(hints_view(acc@) =~= hints_view(old_acc).push(item@));
            assert forall|m: Seq<PathHintView>| #[trigger] at(b@, pos as int, enc_hint_list(m)) implies hints_view(
                acc@,
            ) == m.take(k + 1) && at(b@, at2 as int, enc_hints(m.skip(k + 1))) by {
                assert(m.take(k + 1) =~= m.take(k as int).push(m[k as int]));
            }
        }
        p = at2;
        k = k + 1;
    }
    proof {
        lemma_at_split(b@, pos as int, enc_u64(count), enc_hints(hints_view(acc@)));
        assert(enc_len(hints_view(acc@).len()) == enc_u64(count));
        assert forall|m: Seq<PathHintView>| #[trigger] at(b@, pos as int, enc_hint_list(m)) implies hints_view(acc@)
            == m by {
            assert(m.take(k as int) =~= m);
        }
    }
    Some((acc, p))
}

pub open spec fn enc_lnaddr(a: LnAddressView) -> Seq<u8> {
    enc_blob(a.node_id) + enc_blob(a.features) + enc_blob(a.lock) + enc_opt_u16(
        a.min_final_cltv_expiry,
    ) + enc_hint_list(a.path_hints)
}

pub(crate) fn put_lnaddr(out: &mut Vec<u8>, a: &LnAddress)
    ensures
        final(out)@ == old(out)@ + enc_lnaddr(a@),
{
    put_blob(out, &a.node_id);
    put_blob(out, &a.features);
    put_blob(out, &a.lock);
    put_opt_u16(out, a.min_final_cltv_expiry);
    put_hints(out, &a.path_hints);
    proof {
        assert(final(out)@ =~= old(out)@ + enc_lnaddr(a@));
    }
}

pub(crate) fn read_lnaddr(b: &Vec<u8>, pos: usize) -> (r: Option<(LnAddress, usize)>)
    ensures
        r matches Some((v, n)) ==> n == pos + enc_lnaddr(v@).len() && at(b@, pos as int, enc_lnaddr(v@)),
        forall|m: LnAddressView| #[trigger] at(b@, pos as int, enc_lnaddr(m)) ==> (r matches Some((v, n))
            && v@ == m),
{
    proof {
        assert forall|m: LnAddressView| #[trigger] at(b@, pos as int, enc_lnaddr(m)) implies {
            let a = enc_blob(m.node_id);
            let b1 = a + enc_blob(m.features);
            let c1 = b1 + enc_blob(m.lock);
            let d1 = c1 + enc_opt_u16(m.min_final_cltv_expiry);
            at(b@, pos as int, a) && at(b@, pos + a.len(), enc_blob(m.features)) && at(
                b@,
                pos + b1.len(),
                enc_blob(m.lock),
            ) && at(b@, pos + c1.len(), enc_opt_u16(m.min_final_cltv_expiry)) && at(
                b@,
                pos + d1.len(),
                enc_hint_list(m.path_hints),
            )
        } by {
            let a = enc_blob(m.node_id);
            let b1 = a + enc_blob(m.features);
            let c1 = b1 + enc_blob(m.lock);
            let d1 = c1 + enc_opt_u16(m.min_final_cltv_expiry);
            lemma_at_split(b@, pos as int, d1, enc_hint_list(m.path_hints));
            lemma_at_split(b@, pos as int, c1, enc_opt_u16(m.min_final_cltv_expiry));
            lemma_at_split(b@, pos as int, b1, enc_blob(m.lock));
            lemma_at_split(b@, pos as int, a, enc_blob(m.features));
        }
    }
    let (node_id, n1) = match read_blob(b, pos) {
        Some(x) => x,
        None => return None,
    };
    let (features, n2) = match read_blob(b, n1) {
        Some(x) => x,
        None => return None,
    };
    let (lock, n3) = match read_blob(b, n2) {
        Some(x) => x,
        None => return None,
    };
    let (min_final_cltv_expiry, n4) = match read_opt_u16(b, n3) {
        Some(x) => x,
        None => return None,
    };
    let (path_hints, n5) = match read_hints(b, n4) {
        Some(x) => x,
        None => return None,
    };
    let a = LnAddress { node_id, features, lock, min_final_cltv_expiry, path_hints };
    proof {
        let m = a@;
        let a1 = enc_blob(m.node_id);
        let b1 = a1 + enc_blob(m.features);
        let c1 = b1 + enc_blob(m.lock);
        let d1 = c1 + enc_opt_u16(m.min_final_cltv_expiry);
        lemma_at_split(b@, pos as int, a1, enc_blob(m.features));
        lemma_at_split(b@, pos as int, b1, enc_blob(m.lock));
        lemma_at_split(b@, pos as int, c1, enc_opt_u16(m.min_final_cltv_expiry));
        lemma_at_split(b@, pos as int, d1, enc_hint_list(m.path_hints));
    }
    Some((a, n5))
}

pub open spec fn enc_beneficiary(x: BeneficiaryView) -> Seq<u8> {
    match x {
        BeneficiaryView::Address(s) => enc_u8(0) + enc_text(s),
        BeneficiaryView::BlindUtxo(d) => enc_u8(1) + enc_blob(d),
        BeneficiaryView::Descriptor(s) => enc_u8(2) + enc_text(s),
        BeneficiaryView::Psbt(d) => enc_u8(3) + enc_blob(d),
        BeneficiaryView::Bolt(a) => enc_u8(4) + enc_lnaddr(a),
        BeneficiaryView::Unknown(d) => enc_u8(5) + enc_blob(d),
    }
}

proof fn lemma_enc_beneficiary_nonempty(x: BeneficiaryView)
    ensures
        enc_beneficiary(x).len() >= 1,
{
}

pub(crate) fn put_beneficiary(out: &mut Vec<u8>, x: &Beneficiary)
    ensures
        final(out)@ == old(out)@ + enc_beneficiary(x@),
{
    match x {
        Beneficiary::Address(s) => {
            put_u8(out, 0);
            put_text(out, s);
        },
        Beneficiary::BlindUtxo(d) => {
            put_u8(out, 1);
            put_blob(out, d);
        },
        Beneficiary::Descriptor(s) => {
            put_u8(out, 2);
            put_text(out, s);
        },
        Beneficiary::Psbt(d) => {
            put_u8(out, 3);
            put_blob(out, d);
        },
        Beneficiary::Bolt(a) => {
            put_u8(out, 4);
            put_lnaddr(out, a);
        },
        Beneficiary::Unknown(d) => {
            put_u8(out, 5);
            put_blob(out, d);
        },
    }
    proof {
        assert(final(out)@ =~= old(out)@ + enc_beneficiary(x@));
    }
}

pub(crate) fn read_beneficiary(b: &Vec<u8>, pos: usize) -> (r: Option<(Beneficiary, usize)>)
    ensures
        r matches Some((v, n)) ==> n == pos + enc_beneficiary(v@).len() && at(
            b@,
            pos as int,
            enc_beneficiary(v@),
        ),
        forall|m: BeneficiaryView| #[trigger] at(b@, pos as int, enc_beneficiary(m)) ==> (r matches Some(
            (v, n),
        ) && v@ == m),
{
    proof {
        assert forall|m: BeneficiaryView| #[trigger] at(b@, pos as int, enc_beneficiary(m)) implies match m {
            BeneficiaryView::Address(s) => at(b@, pos as int, enc_u8(0)) && at(b@, pos + 1, enc_text(s)),
            BeneficiaryView::BlindUtxo(d) => at(b@, pos as int, enc_u8(1)) && at(b@, pos + 1, enc_blob(d)),
            BeneficiaryView::Descriptor(s) => at(b@, pos as int, enc_u8(2)) && at(b@, pos + 1, enc_text(s)),
            BeneficiaryView::Psbt(d) => at(b@, pos as int, enc_u8(3)) && at(b@, pos + 1, enc_blob(d)),
            BeneficiaryView::Bolt(a) => at(b@, pos as int, enc_u8(4)) && at(b@, pos + 1, enc_lnaddr(a)),
            BeneficiaryView::Unknown(d) => at(b@, pos as int, enc_u8(5)) && at(b@, pos + 1, enc_blob(d)),
        } by {
            match m {
                BeneficiaryView::Address(s) => lemma_at_split(b@, pos as int, enc_u8(0), enc_text(s)),
                BeneficiaryView::BlindUtxo(d) => lemma_at_split(b@, pos as int, enc_u8(1), enc_blob(d)),
                BeneficiaryView::Descriptor(s) => lemma_at_split(b@, pos as int, enc_u8(2), enc_text(s)),
                BeneficiaryView::Psbt(d) => lemma_at_split(b@, pos as int, enc_u8(3), enc_blob(d)),
                BeneficiaryView::Bolt(a) => lemma_at_split(b@, pos as int, enc_u8(4), enc_lnaddr(a)),
                BeneficiaryView::Unknown(d) => lemma_at_split(b@, pos as int, enc_u8(5), enc_blob(d)),
            }
        }
    }
    match read_u8(b, pos) {
        Some((0, n)) => match read_text(b, n) {
            Some((s, n2)) => {
                proof {
                    lemma_at_split(b@, pos as int, enc_u8(0), enc_text(s@));
                }
                Some((Beneficiary::Address(s), n2))
            },
            None => None,
        },
        Some((1, n)) => match read_blob(b, n) {
            Some((d, n2)) => {
                proof {
                    lemma_at_split(b@, pos as int, enc_u8(1), enc_blob(d@));
                }
                Some((Beneficiary::BlindUtxo(d), n2))
            },
            None => None,
        },
        Some((2, n)) => match read_text(b, n) {
            Some((s, n2)) => {
                proof {
                    lemma_at_split(b@, pos as int, enc_u8(2), enc_text(s@));
                }
                Some((Beneficiary::Descriptor(s), n2))
            },
            None => None,
        },
        Some((3, n)) => match read_blob(b, n) {
            Some((d, n2)) => {
                proof {
                    lemma_at_split(b@, pos as int, enc_u8(3), enc_blob(d@));
                }
                Some((Beneficiary::Psbt(d), n2))
            },
            None => None,
        },
        Some((4, n)) => match read_lnaddr(b, n) {
            Some((a, n2)) => {
                proof {
                    lemma_at_split(b@, pos as int, enc_u8(4), enc_lnaddr(a@));
                }
                Some((Beneficiary::Bolt(a), n2))
            },
            None => None,
        },
        Some((5, n)) => match read_blob(b, n) {
            Some((d, n2)) => {
                proof {
                    lemma_at_split(b@, pos as int, enc_u8(5), enc_blob(d@));
                }
                Some((Beneficiary::Unknown(d), n2))
            },
            None => None,
        },
        _ => None,
    }
}

pub open spec fn enc_beneficiaries(s: Seq<BeneficiaryView>) -> Seq<u8>
    decreases s.len(),
{
    if s.len() == 0 {
        Seq::empty()
    } else {
        enc_beneficiary(s[0]) + enc_beneficiaries(s.drop_first())
    }
}

pub open spec fn enc_beneficiary_list(s: Seq<BeneficiaryView>) -> Seq<u8> {
    enc_len(s.len()) + enc_beneficiaries(s)
}

proof fn lemma_enc_beneficiaries_push(s: Seq<BeneficiaryView>, x: BeneficiaryView)
    ensures
        enc_beneficiaries(s.push(x)) == enc_beneficiaries(s) + enc_beneficiary(x),
    decreases s.len(),
{
    if s.len() == 0 {
        assert(s.push(x).drop_first() =~= s);
        assert(enc_beneficiaries(s.push(x)) =~= enc_beneficiaries(s) + enc_beneficiary(x));
    } else {
        lemma_enc_beneficiaries_push(s.drop_first(), x);
        assert(s.push(x).drop_first() =~= s.drop_first().push(x));
        assert(enc_beneficiaries(s.push(x)) =~= enc_beneficiaries(s) + enc_beneficiary(x));
    }
}

proof fn lemma_enc_beneficiaries_len(s: Seq<BeneficiaryView>)
    ensures
        enc_beneficiaries(s).len() >= s.len(),
    decreases s.len(),
{
    if s.len() > 0 {
        lemma_enc_beneficiaries_len(s.drop_first());
        lemma_enc_beneficiary_nonempty(s[0]);
    }
}

proof fn lemma_enc_beneficiaries_skip(s: Seq<BeneficiaryView>, k: int)
    requires
        0 <= k < s.len(),
    ensures
        enc_beneficiaries(s.skip(k)) == enc_beneficiary(s[k]) + enc_beneficiaries(s.skip(k + 1)),
{
    assert(s.skip(k).drop_first() =~= s.skip(k + 1));
    assert(s.skip(k)[0] == s[k]);
}

pub(crate) fn put_beneficiaries(out: &mut Vec<u8>, v: &Vec<Beneficiary>)
    ensures
        final(out)@ == old(out)@ + enc_beneficiary_list(beneficiaries_view(v@)),
{
    let ghost start = out@;
    put_u64(out, v.len() as u64);
    let mut i: usize = 0;
    while i < v.len()
        invariant
            i <= v@.len(),
            out@ == start + enc_len(v@.len()) + enc_beneficiaries(beneficiaries_view(v@).take(i as int)),
        decreases v@.len() - i,
    {
        put_beneficiary(out, &v[i]);
        proof {
            lemma_enc_beneficiaries_push(beneficiaries_view(v@).take(i as int), v@[i as int]@);
            assert(beneficiaries_view(v@).take(i as int).push(v@[i as int]@) =~= beneficiaries_view(v@).take(i + 1));
        }
        i = i + 1;
    }
    proof {
        assert(beneficiaries_view(v@).take(i as int) =~= beneficiaries_view(v@));
        assert(out@ =~= start + enc_beneficiary_list(beneficiaries_view(v@)));
    }
}

pub(crate) fn read_beneficiaries(b: &Vec<u8>, pos: usize) -> (r: Option<(Vec<Beneficiary>, usize)>)
    ensures
        r matches Some((v, n)) ==> n == pos + enc_beneficiary_list(beneficiaries_view(v@)).len() && at(
            b@,
            pos as int,
            enc_beneficiary_list(beneficiaries_view(v@)),
        ),
        forall|m: Seq<BeneficiaryView>| #[trigger] at(b@, pos as int, enc_beneficiary_list(m)) ==> (r matches Some(
            (v, n),
        ) && beneficiaries_view(v@) == m),
{
    proof {
        lemma_int_lens();
        assert forall|m: Seq<BeneficiaryView>| #[trigger] at(b@, pos as int, enc_beneficiary_list(m)) implies at(
            b@,
            pos as int,
            enc_u64(m.len() as u64),
        ) && at(b@, pos + 8, enc_beneficiaries(m)) && m.len() <= u64::MAX by {
            lemma_at_split(b@, pos as int, enc_len(m.len()), enc_beneficiaries(m));
            lemma_enc_beneficiaries_len(m);
            assert(b@.len() == b.len());
        }
    }
    let (count, start) = match read_u64(b, pos) {
        Some(x) => x,
        None => return None,
    };
    let mut acc: Vec<Beneficiary> = Vec::new();
    let mut p = start;
    let mut k: u64 = 0;
    proof {
        assert(beneficiaries_view(acc@) =~= Seq::<BeneficiaryView>::empty());
        assert(b@.subrange(start as int, start as int) =~= Seq::<u8>::empty());
        assert forall|m: Seq<BeneficiaryView>| #[trigger] at(b@, pos as int, enc_beneficiary_list(m)) implies beneficiaries_view(acc@)
            == m.take(0) && m.skip(0) == m by {
            assert(m.take(0) =~= Seq::<BeneficiaryView>::empty());
            assert(m.skip(0) =~= m);
        }
    }
    while k < count
        invariant
            start == pos + 8,
            at(b@, pos as int, enc_u64(count)),
            acc@.len() == k,
            k <= count,
            at(b@, start as int, enc_beneficiaries(beneficiaries_view(acc@))),
            p == start + enc_beneficiaries(beneficiaries_view(acc@)).len(),
            forall|m: Seq<BeneficiaryView>| #[trigger] at(b@, pos as int, enc_beneficiary_list(m)) ==> m.len() == count
                && beneficiaries_view(acc@) == m.take(k as int) && at(b@, p as int, enc_beneficiaries(m.skip(k as int))),
        decreases count - k,
    {
        proof {
            assert forall|m: Seq<BeneficiaryView>| #[trigger] at(b@, pos as int, enc_beneficiary_list(m)) implies at(
                b@,
                p as int,
                enc_beneficiary(m[k as int]),
            ) && at(b@, p + enc_beneficiary(m[k as int]).len(), enc_beneficiaries(m.skip(k + 1))) by {
                lemma_enc_beneficiaries_skip(m, k as int);
                lemma_at_split(b@, p as int, enc_beneficiary(m[k as int]), enc_beneficiaries(m.skip(k + 1)));
            }
        }
        let (item, at2) = match read_beneficiary(b, p) {
            Some(x) => x,
            None => return None,
        };
        proof {
            lemma_enc_beneficiaries_push(beneficiaries_view(acc@), item@);
            lemma_at_split(b@, start as int, enc_beneficiaries(beneficiaries_view(acc@)), enc_beneficiary(item@));
        }
        let ghost old_acc = acc@;
        acc.push(item);
        proof {
            assert(beneficiaries_view(acc@) =~= beneficiaries_view(old_acc).push(item@));
            assert forall|m: Seq<BeneficiaryView>| #[trigger] at(b@, pos as int, enc_beneficiary_list(m)) implies beneficiaries_view(
                acc@,
            ) == m.take(k + 1) && at(b@, at2 as int, enc_beneficiaries(m.skip(k + 1))) by {
                assert(m.take(k + 1) =~= m.take(k as int).push(m[k as int]));
            }
        }
        p = at2;
        k = k + 1;
    }
    proof {
        lemma_at_split(b@, pos as int, enc_u64(count), enc_beneficiaries(beneficiaries_view(acc@)));
        assert(enc_len(beneficiaries_view(acc@).len()) == enc_u64(count));
        assert forall|m: Seq<BeneficiaryView>| #[trigger] at(b@, pos as int, enc_beneficiary_list(m)) implies beneficiaries_view(acc@)
            == m by {
            assert(m.take(k as int) =~= m);
        }
    }
    Some((acc, p))
}

// Invoice layout: version, amount and primary beneficiary, then one record
// for each optional field that is set, in the order of their tags, then the
// extension records. A record is its tag, two bytes, and its payload as a
// byte string.

pub open spec fn enc_record(t: u16, p: Seq<u8>) -> Seq<u8> {
    enc_u16(t) + enc_blob(p)
}

pub open spec fn enc_opt_record(t: u16, p: Option<Seq<u8>>) -> Seq<u8> {
    match p {
        Some(x) => enc_record(t, x),
        None => Seq::empty(),
    }
}

/// Number of tags that this library knows.
pub open spec fn known_tags() -> nat {
    12
}

/// The records of the known fields with tags below `t`.
pub open spec fn enc_records_upto(pls: Seq<Option<Seq<u8>>>, t: nat) -> Seq<u8>
    decreases t,
{
    if t == 0 {
        Seq::empty()
    } else {
        enc_records_upto(pls, (t - 1) as nat) + enc_opt_record((t - 1) as u16, pls[t - 1])
    }
}

/// The records of the known fields with tags from `t` on.
pub open spec fn enc_records_from(pls: Seq<Option<Seq<u8>>>, t: nat) -> Seq<u8>
    decreases known_tags() - t,
{
    if t >= known_tags() {
        Seq::empty()
    } else {
        enc_opt_record(t as u16, pls[t as int]) + enc_records_from(pls, t + 1)
    }
}

pub open spec fn enc_extensions(u: Seq<(u16, Seq<u8>)>) -> Seq<u8>
    decreases u.len(),
{
    if u.len() == 0 {
        Seq::empty()
    } else {
        enc_record(u[0].0, u[0].1) + enc_extensions(u.drop_first())
    }
}

/// Extension records have tags above the known ones, in increasing order.
pub open spec fn extension_tags_ok(u: Seq<(u16, Seq<u8>)>) -> bool {
    &&& forall|i: int| 0 <= i < u.len() ==> (#[trigger] u[i]).0 >= known_tags()
    &&& forall|i: int, j: int| 0 <= i < j < u.len() ==> (#[trigger] u[i]).0 < (#[trigger] u[j]).0
}

/// The tag of the record a byte string starts with.
pub open spec fn first_tag(s: Seq<u8>) -> u16 {
    spec_u16_from_le_bytes(s.subrange(0, 2))
}

/// A byte string of records whose first tag is at least `t`.
pub open spec fn starts_at_or_above(s: Seq<u8>, t: nat) -> bool {
    s.len() == 0 || (s.len() >= 2 && first_tag(s) >= t)
}

pub open spec fn enc_layout(
    version: u8,
    amount: AmountExt,
    beneficiary: BeneficiaryView,
    pls: Seq<Option<Seq<u8>>>,
    u: Seq<(u16, Seq<u8>)>,
) -> Seq<u8> {
    enc_u8(version) + enc_amount(amount) + enc_beneficiary(beneficiary) + enc_records_upto(
        pls,
        known_tags(),
    ) + enc_extensions(u)
}

proof fn lemma_record_tag(t: u16, p: Seq<u8>, rest: Seq<u8>)
    ensures
        (enc_record(t, p) + rest).len() >= 10,
        first_tag(enc_record(t, p) + rest) == t,
{
    lemma_auto_spec_u16_to_from_le_bytes();
    lemma_int_lens();
    assert((enc_record(t, p) + rest).subrange(0, 2) =~= enc_u16(t));
}

proof fn lemma_extensions_start(u: Seq<(u16, Seq<u8>)>, t: nat)
    requires
        extension_tags_ok(u),
        t <= known_tags(),
    ensures
        starts_at_or_above(enc_extensions(u), t),
{
    if u.len() > 0 {
        lemma_record_tag(u[0].0, u[0].1, enc_extensions(u.drop_first()));
    }
}

proof fn lemma_records_start(pls: Seq<Option<Seq<u8>>>, t: nat, u: Seq<(u16, Seq<u8>)>)
    requires
        extension_tags_ok(u),
        t <= known_tags(),
    ensures
        starts_at_or_above(enc_records_from(pls, t) + enc_extensions(u), t),
    decreases known_tags() - t,
{
    if t >= known_tags() {
        lemma_extensions_start(u, t);
        assert(enc_records_from(pls, t) + enc_extensions(u) =~= enc_extensions(u));
    } else {
        lemma_records_start(pls, t + 1, u);
        let rest = enc_records_from(pls, t + 1) + enc_extensions(u);
        match pls[t as int] {
            Some(x) => {
                assert(enc_records_from(pls, t) + enc_extensions(u) =~= enc_record(t as u16, x)
                    + rest);
                lemma_record_tag(t as u16, x, rest);
            },
            None => {
                assert(enc_records_from(pls, t) + enc_extensions(u) =~= rest);
                if rest.len() >= 2 {
                    assert(first_tag(rest) >= t + 1);
                }
            },
        }
    }
}

proof fn lemma_records_split(pls: Seq<Option<Seq<u8>>>, t: nat)
    requires
        t <= known_tags(),
    ensures
        enc_records_upto(pls, known_tags()) == enc_records_upto(pls, t) + enc_records_from(pls, t),
    decreases known_tags() - t,
{
    if t < known_tags() {
        lemma_records_split(pls, t + 1);
        assert(enc_records_upto(pls, t + 1) == enc_records_upto(pls, t) + enc_opt_record(
            t as u16,
            pls[t as int],
        ));
        assert(enc_records_upto(pls, t) + enc_records_from(pls, t) =~= enc_records_upto(pls, t + 1)
            + enc_records_from(pls, t + 1));
    } else {
        assert(enc_records_upto(pls, t) + enc_records_from(pls, t) =~= enc_records_upto(pls, t));
    }
}

proof fn lemma_records_prefix(a: Seq<Option<Seq<u8>>>, b: Seq<Option<Seq<u8>>>, t: nat)
    requires
        t <= a.len(),
        t <= b.len(),
        a.take(t as int) == b.take(t as int),
    ensures
        enc_records_upto(a, t) == enc_records_upto(b, t),
    decreases t,
{
    if t > 0 {
        assert(a.take(t - 1) =~= a.take(t as int).take(t - 1));
        assert(b.take(t - 1) =~= b.take(t as int).take(t - 1));
        lemma_records_prefix(a, b, (t - 1) as nat);
        assert(a[t - 1] == a.take(t as int)[t - 1]);
        assert(b[t - 1] == b.take(t as int)[t - 1]);
    }
}

pub open spec fn opt_bytes_view(v: Seq<Option<Vec<u8>>>) -> Seq<Option<Seq<u8>>> {
    v.map_values(|o: Option<Vec<u8>>| bytes_opt(o))
}

/// Reads the record with tag `t` at `pos`, if the next record has that tag.
fn read_opt_record(b: &Vec<u8>, pos: usize, t: u16) -> (r: Option<(Option<Vec<u8>>, usize)>)
    ensures
        r matches Some((o, n)) ==> n == pos + enc_opt_record(t, bytes_opt(o)).len() && at(
            b@,
            pos as int,
            enc_opt_record(t, bytes_opt(o)),
        ),
        forall|o: Option<Seq<u8>>, rest: Seq<u8>|
            pos <= b@.len() && #[trigger] b@.subrange(pos as int, b@.len() as int) == enc_opt_record(t, o) + rest
                && starts_at_or_above(rest, (t + 1) as nat) ==> (r matches Some((x, n)) && bytes_opt(x) == o),
{
    proof {
        lemma_int_lens();
        lemma_auto_spec_u16_to_from_le_bytes();
    }
    if pos >= b.len() {
        proof {
            if pos == b.len() {
                assert(b@.subrange(pos as int, pos as int) =~= Seq::<u8>::empty());
            }
            assert forall|o: Option<Seq<u8>>, rest: Seq<u8>|
                pos <= b@.len() && #[trigger] b@.subrange(pos as int, b@.len() as int) == enc_opt_record(t, o) + rest
                    && starts_at_or_above(rest, (t + 1) as nat) implies o is None by {
                if let Some(x) = o {
                    lemma_record_tag(t, x, rest);
                }
            }
        }
        return if pos == b.len() { Some((None, pos)) } else { None };
    }
    let tag = match read_u16(b, pos) {
        Some((tag, _)) => tag,
        None => {
            proof {
                assert forall|o: Option<Seq<u8>>, rest: Seq<u8>|
                    pos <= b@.len() && #[trigger] b@.subrange(pos as int, b@.len() as int) == enc_opt_record(t, o) + rest
                        && starts_at_or_above(rest, (t + 1) as nat) implies false by {
                    let s = b@.subrange(pos as int, b@.len() as int);
                    if let Some(x) = o {
                        lemma_record_tag(t, x, rest);
                    } else {
                        assert(s =~= rest);
                    }
                    assert(s.len() >= 2);
                    assert(s.subrange(0, 2) =~= b@.subrange(pos as int, pos + 2));
                    assert(enc_u16(first_tag(s)) == s.subrange(0, 2));
                    assert(at(b@, pos as int, enc_u16(first_tag(s))));
                }
            }
            return None;
        },
    };
    proof {
        assert(b@.subrange(pos as int, pos + 2) == enc_u16(tag));
        assert forall|o: Option<Seq<u8>>, rest: Seq<u8>|
            pos <= b@.len() && #[trigger] b@.subrange(pos as int, b@.len() as int) == enc_opt_record(t, o) + rest
                && starts_at_or_above(rest, (t + 1) as nat) implies (o is Some <==> tag == t) && (o matches Some(x) ==> at(
                b@,
                pos + 2,
                enc_blob(x),
            )) by {
            let s = b@.subrange(pos as int, b@.len() as int);
            assert(s.subrange(0, 2) =~= b@.subrange(pos as int, pos + 2));
            assert(first_tag(s) == tag);
            match o {
                Some(x) => {
                    lemma_record_tag(t, x, rest);
                    assert(s =~= enc_u16(t) + (enc_blob(x) + rest));
                    assert(b@.subrange(pos + 2, pos + 2 + enc_blob(x).len()) =~= s.subrange(
                        2,
                        2 + enc_blob(x).len() as int,
                    ));
                    assert(s.subrange(2, 2 + enc_blob(x).len() as int) =~= enc_blob(x));
                    assert(tag == t);
                },
                None => {
                    assert(s =~= rest);
                    assert(s.len() >= 2);
                    assert(first_tag(rest) >= t + 1);
                    assert(tag != t);
                },
            }
        }
    }
    if tag != t {
        proof {
            assert(b@.subrange(pos as int, pos as int) =~= Seq::<u8>::empty());
        }
        return Some((None, pos));
    }
    match read_blob(b, pos + 2) {
        Some((x, n)) => {
            proof {
                lemma_at_split(b@, pos as int, enc_u16(t), enc_blob(x@));
            }
            Some((Some(x), n))
        },
        None => None,
    }
}

proof fn lemma_extensions_push(s: Seq<(u16, Seq<u8>)>, x: (u16, Seq<u8>))
    ensures
        enc_extensions(s.push(x)) == enc_extensions(s) + enc_record(x.0, x.1),
    decreases s.len(),
{
    if s.len() == 0 {
        assert(s.push(x).drop_first() =~= s);
        assert(enc_extensions(s.push(x)) =~= enc_extensions(s) + enc_record(x.0, x.1));
    } else {
        lemma_extensions_push(s.drop_first(), x);
        assert(s.push(x).drop_first() =~= s.drop_first().push(x));
        assert(enc_extensions(s.push(x)) =~= enc_extensions(s) + enc_record(x.0, x.1));
    }
}

proof fn lemma_extensions_skip(s: Seq<(u16, Seq<u8>)>, k: int)
    requires
        0 <= k < s.len(),
    ensures
        enc_extensions(s.skip(k)) == enc_record(s[k].0, s[k].1) + enc_extensions(s.skip(k + 1)),
{
    assert(s.skip(k).drop_first() =~= s.skip(k + 1));
    assert(s.skip(k)[0] == s[k]);
}

/// Reads extension records up to the end of `b`.
fn read_extensions(b: &Vec<u8>, pos: usize) -> (r: Option<Vec<ExtensionField>>)
    requires
        pos <= b@.len(),
    ensures
        r matches Some(u) ==> extension_tags_ok(extensions_view(u@)) && b@.subrange(
            pos as int,
            b@.len() as int,
        ) == enc_extensions(extensions_view(u@)),
        forall|m: Seq<(u16, Seq<u8>)>|
            extension_tags_ok(m) && #[trigger] enc_extensions(m) == b@.subrange(pos as int, b@.len() as int)
                ==> (r matches Some(u) && extensions_view(u@) == m),
{
    let mut acc: Vec<ExtensionField> = Vec::new();
    let mut p = pos;
    let mut last: u32 = 11;
    proof {
        assert(extensions_view(acc@) =~= Seq::<(u16, Seq<u8>)>::empty());
        assert(b@.subrange(pos as int, pos as int) =~= Seq::<u8>::empty());
        assert forall|m: Seq<(u16, Seq<u8>)>|
            extension_tags_ok(m) && #[trigger] enc_extensions(m) == b@.subrange(pos as int, b@.len() as int)
                implies extensions_view(acc@) == m.take(0) && m.skip(0) == m by {
            assert(m.take(0) =~= Seq::<(u16, Seq<u8>)>::empty());
            assert(m.skip(0) =~= m);
        }
    }
    while p < b.len()
        invariant
            pos <= p <= b@.len(),
            at(b@, pos as int, enc_extensions(extensions_view(acc@))),
            p == pos + enc_extensions(extensions_view(acc@)).len(),
            extension_tags_ok(extensions_view(acc@)),
            acc@.len() == 0 ==> last == 11,
            acc@.len() > 0 ==> last == acc@[acc@.len() - 1].0,
            last <= u16::MAX,
            forall|m: Seq<(u16, Seq<u8>)>|
                extension_tags_ok(m) && #[trigger] enc_extensions(m) == b@.subrange(pos as int, b@.len() as int)
                    ==> acc@.len() <= m.len() && extensions_view(acc@) == m.take(acc@.len() as int)
                    && b@.subrange(p as int, b@.len() as int) == enc_extensions(m.skip(acc@.len() as int)),
        decreases b@.len() - p,
    {
        let ghost k = acc@.len() as int;
        proof {
            lemma_int_lens();
            assert forall|m: Seq<(u16, Seq<u8>)>|
                extension_tags_ok(m) && #[trigger] enc_extensions(m) == b@.subrange(pos as int, b@.len() as int)
                    implies k < m.len() && at(b@, p as int, enc_u16(m[k].0)) && at(
                    b@,
                    p + 2,
                    enc_blob(m[k].1),
                ) && m[k].0 > last by {
                if k >= m.len() {
                    assert(m.skip(k) =~= Seq::<(u16, Seq<u8>)>::empty());
                    assert(enc_extensions(m.skip(k)).len() == 0);
                    assert(b@.subrange(p as int, b@.len() as int).len() > 0);
                    assert(false);
                }
                lemma_extensions_skip(m, k);
                let rest = enc_extensions(m.skip(k + 1));
                assert(b@.subrange(p as int, b@.len() as int) =~= enc_u16(m[k].0) + (enc_blob(m[k].1)
                    + rest));
                assert(at(b@, p as int, enc_u16(m[k].0) + (enc_blob(m[k].1) + rest)));
                lemma_at_split(b@, p as int, enc_u16(m[k].0), enc_blob(m[k].1) + rest);
                lemma_at_split(b@, p + 2, enc_blob(m[k].1), rest);
                assert(at(b@, p as int, enc_u16(m[k].0)));
                assert(at(b@, p + 2, enc_blob(m[k].1)));
                if k > 0 {
                    assert(m.take(k)[k - 1] == m[k - 1]);
                    assert(extensions_view(acc@)[k - 1] == (acc@[k - 1].0, acc@[k - 1].1@));
                    assert(m[k - 1].0 < m[k].0);
                    assert(m[k].0 > last);
                } else {
                    assert(m[k].0 >= 12);
                }
            }
        }
        let (tag, at2) = match read_u16(b, p) {
            Some(x) => x,
            None => return None,
        };
        if tag as u32 <= last {
            return None;
        }
        let (data, at3) = match read_blob(b, at2) {
            Some(x) => x,
            None => return None,
        };
        let ghost before = extensions_view(acc@);
        proof {
            lemma_extensions_push(before, (tag, data@));
            lemma_at_split(b@, p as int, enc_u16(tag), enc_blob(data@));
            lemma_at_split(b@, pos as int, enc_extensions(before), enc_record(tag, data@));
        }
        acc.push((tag, data));
        last = tag as u32;
        proof {
            assert(extensions_view(acc@) =~= before.push((tag, acc@[k].1@)));
            assert forall|i: int, j: int| 0 <= i < j < extensions_view(acc@).len() implies (#[trigger] extensions_view(acc@)[i]).0
                < (#[trigger] extensions_view(acc@)[j]).0 by {
                if j < k {
                    assert(before[i] == extensions_view(acc@)[i]);
                    assert(before[j] == extensions_view(acc@)[j]);
                } else if k > 0 {
                    assert(before[i] == extensions_view(acc@)[i]);
                    if i < k - 1 {
                        assert(before[k - 1] == extensions_view(acc@)[k - 1]);
                        assert(before[i].0 < before[k - 1].0);
                    }
                }
            }
            assert forall|m: Seq<(u16, Seq<u8>)>|
                extension_tags_ok(m) && #[trigger] enc_extensions(m) == b@.subrange(pos as int, b@.len() as int)
                    implies extensions_view(acc@) == m.take(k + 1) && b@.subrange(at3 as int, b@.len() as int)
                    == enc_extensions(m.skip(k + 1)) by {
                lemma_extensions_skip(m, k);
                assert(m.take(k + 1) =~= m.take(k).push(m[k]));
                let rest = enc_extensions(m.skip(k + 1));
                let s = b@.subrange(p as int, b@.len() as int);
                assert(s =~= enc_record(m[k].0, m[k].1) + rest);
                assert(b@.subrange(at3 as int, b@.len() as int) =~= s.subrange(
                    enc_record(m[k].0, m[k].1).len() as int,
                    s.len() as int,
                ));
            }
        }
        p = at3;
    }
    proof {
        assert(b@.subrange(pos as int, b@.len() as int) =~= b@.subrange(pos as int, p as int));
        assert forall|m: Seq<(u16, Seq<u8>)>|
            extension_tags_ok(m) && #[trigger] enc_extensions(m) == b@.subrange(pos as int, b@.len() as int)
                implies extensions_view(acc@) == m by {
            let k = acc@.len() as int;
            if k < m.len() {
                lemma_extensions_skip(m, k);
                lemma_record_tag(m[k].0, m[k].1, enc_extensions(m.skip(k + 1)));
                assert(b@.subrange(p as int, b@.len() as int).len() == 0);
            }
            assert(m.take(k) =~= m);
        }
    }
    Some(acc)
}

pub open spec fn pay_signature(o: Option<(Seq<u8>, Seq<u8>)>) -> Option<Seq<u8>> {
    match o {
        Some(x) => Some(enc_pair(x)),
        None => None,
    }
}

fn field_signature(pl: &Option<Vec<u8>>) -> (r: Option<Option<SignaturePair>>)
    ensures
        r matches Some(f) ==> pay_signature(signature_opt(f)) == bytes_opt(*pl),
        forall|m: Option<(Seq<u8>, Seq<u8>)>| #[trigger] pay_signature(m) == bytes_opt(*pl) ==> (r matches Some(f) && signature_opt(f) == m),
{
    match pl {
        None => Some(None),
        Some(p) => {
            proof {
                assert(p@.subrange(0, p@.len() as int) =~= p@);
            }
            match read_pair(p, 0) {
                Some((v, n)) => {
                    if n == p.len() {
                        let f = Some(v);
                        proof {
                            assert(p@.subrange(0, n as int) =~= p@);
                        }
                        Some(f)
                    } else {
                        proof {
                            assert forall|m: Option<(Seq<u8>, Seq<u8>)>| #[trigger] pay_signature(m) == bytes_opt(*pl) implies false by {
                                if let Some(x) = m {
                                    assert(at(p@, 0, enc_pair(x)));
                                }
                            }
                        }
                        None
                    }
                },
                None => {
                    proof {
                        assert forall|m: Option<(Seq<u8>, Seq<u8>)>| #[trigger] pay_signature(m) == bytes_opt(*pl) implies false by {
                            if let Some(x) = m {
                                assert(at(p@, 0, enc_pair(x)));
                            }
                        }
                    }
                    None
                },
            }
        },
    }
}

pub open spec fn pay_quantity(o: Option<Quantity>) -> Option<Seq<u8>> {
    match o {
        Some(x) => Some(enc_quantity(x)),
        None => None,
    }
}

fn field_quantity(pl: &Option<Vec<u8>>) -> (r: Option<Option<Quantity>>)
    ensures
        r matches Some(f) ==> pay_quantity(f) == bytes_opt(*pl),
        forall|m: Option<Quantity>| #[trigger] pay_quantity(m) == bytes_opt(*pl) ==> (r matches Some(f) && f == m),
{
    match pl {
        None => Some(None),
        Some(p) => {
            proof {
                assert(p@.subrange(0, p@.len() as int) =~= p@);
            }
            match read_quantity(p, 0) {
                Some((v, n)) => {
                    if n == p.len() {
                        let f = Some(v);
                        proof {
                            assert(p@.subrange(0, n as int) =~= p@);
                        }
                        Some(f)
                    } else {
                        proof {
                            assert forall|m: Option<Quantity>| #[trigger] pay_quantity(m) == bytes_opt(*pl) implies false by {
                                if let Some(x) = m {
                                    assert(at(p@, 0, enc_quantity(x)));
                                }
                            }
                        }
                        None
                    }
                },
                None => {
                    proof {
                        assert forall|m: Option<Quantity>| #[trigger] pay_quantity(m) == bytes_opt(*pl) implies false by {
                            if let Some(x) = m {
                                assert(at(p@, 0, enc_quantity(x)));
                            }
                        }
                    }
                    None
                },
            }
        },
    }
}

pub open spec fn pay_currency(o: Option<CurrencyView>) -> Option<Seq<u8>> {
    match o {
        Some(x) => Some(enc_currency(x)),
        None => None,
    }
}

fn field_currency(pl: &Option<Vec<u8>>) -> (r: Option<Option<CurrencyData>>)
    ensures
        r matches Some(f) ==> pay_currency(currency_opt(f)) == bytes_opt(*pl),
        forall|m: Option<CurrencyView>| #[trigger] pay_currency(m) == bytes_opt(*pl) ==> (r matches Some(f) && currency_opt(f) == m),
{
    match pl {
        None => Some(None),
        Some(p) => {
            proof {
                assert(p@.subrange(0, p@.len() as int) =~= p@);
            }
            match read_currency(p, 0) {
                Some((v, n)) => {
                    if n == p.len() {
                        let f = Some(v);
                        proof {
                            assert(p@.subrange(0, n as int) =~= p@);
                        }
                        Some(f)
                    } else {
                        proof {
                            assert forall|m: Option<CurrencyView>| #[trigger] pay_currency(m) == bytes_opt(*pl) implies false by {
                                if let Some(x) = m {
                                    assert(at(p@, 0, enc_currency(x)));
                                }
                            }
                        }
                        None
                    }
                },
                None => {
                    proof {
                        assert forall|m: Option<CurrencyView>| #[trigger] pay_currency(m) == bytes_opt(*pl) implies false by {
                            if let Some(x) = m {
                                assert(at(p@, 0, enc_currency(x)));
                            }
                        }
                    }
                    None
                },
            }
        },
    }
}

pub open spec fn pay_details(o: Option<DetailsView>) -> Option<Seq<u8>> {
    match o {
        Some(x) => Some(enc_details(x)),
        None => None,
    }
}

fn field_details(pl: &Option<Vec<u8>>) -> (r: Option<Option<Details>>)
    ensures
        r matches Some(f) ==> pay_details(details_opt(f)) == bytes_opt(*pl),
        forall|m: Option<DetailsView>| #[trigger] pay_details(m) == bytes_opt(*pl) ==> (r matches Some(f) && details_opt(f) == m),
{
    match pl {
        None => Some(None),
        Some(p) => {
            proof {
                assert(p@.subrange(0, p@.len() as int) =~= p@);
            }
            match read_details(p, 0) {
                Some((v, n)) => {
                    if n == p.len() {
                        let f = Some(v);
                        proof {
                            assert(p@.subrange(0, n as int) =~= p@);
                        }
                        Some(f)
                    } else {
                        proof {
                            assert forall|m: Option<DetailsView>| #[trigger] pay_details(m) == bytes_opt(*pl) implies false by {
                                if let Some(x) = m {
                                    assert(at(p@, 0, enc_details(x)));
                                }
                            }
                        }
                        None
                    }
                },
                None => {
                    proof {
                        assert forall|m: Option<DetailsView>| #[trigger] pay_details(m) == bytes_opt(*pl) implies false by {
                            if let Some(x) = m {
                                assert(at(p@, 0, enc_details(x)));
                            }
                        }
                    }
                    None
                },
            }
        },
    }
}

pub open spec fn pay_network(o: Option<Network>) -> Option<Seq<u8>> {
    match o {
        Some(x) => Some(enc_network(x)),
        None => None,
    }
}

fn field_network(pl: &Option<Vec<u8>>) -> (r: Option<Option<Network>>)
    ensures
        r matches Some(f) ==> pay_network(f) == bytes_opt(*pl),
        forall|m: Option<Network>| #[trigger] pay_network(m) == bytes_opt(*pl) ==> (r matches Some(f) && f == m),
{
    match pl {
        None => Some(None),
        Some(p) => {
            proof {
                assert(p@.subrange(0, p@.len() as int) =~= p@);
            }
            match read_network(p, 0) {
                Some((v, n)) => {
                    if n == p.len() {
                        let f = Some(v);
                        proof {
                            assert(p@.subrange(0, n as int) =~= p@);
                        }
                        Some(f)
                    } else {
                        proof {
                            assert forall|m: Option<Network>| #[trigger] pay_network(m) == bytes_opt(*pl) implies false by {
                                if let Some(x) = m {
                                    assert(at(p@, 0, enc_network(x)));
                                }
                            }
                        }
                        None
                    }
                },
                None => {
                    proof {
                        assert forall|m: Option<Network>| #[trigger] pay_network(m) == bytes_opt(*pl) implies false by {
                            if let Some(x) = m {
                                assert(at(p@, 0, enc_network(x)));
                            }
                        }
                    }
                    None
                },
            }
        },
    }
}

pub open spec fn pay_beneficiaries(s: Seq<BeneficiaryView>) -> Option<Seq<u8>> {
    if s.len() == 0 {
        None
    } else {
        Some(enc_beneficiary_list(s))
    }
}

fn field_beneficiaries(pl: &Option<Vec<u8>>) -> (r: Option<Vec<Beneficiary>>)
    ensures
        r matches Some(f) ==> pay_beneficiaries(beneficiaries_view(f@)) == bytes_opt(*pl),
        forall|m: Seq<BeneficiaryView>| #[trigger] pay_beneficiaries(m) == bytes_opt(*pl) ==> (r matches Some(f) && beneficiaries_view(f@) == m),
{
    match pl {
        None => {
            let f: Vec<Beneficiary> = Vec::new();
            proof {
                assert(beneficiaries_view(f@) =~= Seq::<BeneficiaryView>::empty());
            }
            Some(f)
        },
        Some(p) => {
            proof {
                assert(p@.subrange(0, p@.len() as int) =~= p@);
            }
            match read_beneficiaries(p, 0) {
                Some((v, n)) => {
                    if n == p.len() && v.len() > 0 {
                        proof {
                            assert(p@.subrange(0, n as int) =~= p@);
                        }
                        Some(v)
                    } else {
                        proof {
                            assert forall|m: Seq<BeneficiaryView>| #[trigger] pay_beneficiaries(m) == bytes_opt(*pl) implies false by {
                                assert(at(p@, 0, enc_beneficiary_list(m)));
                            }
                        }
                        None
                    }
                },
                None => {
                    proof {
                        assert forall|m: Seq<BeneficiaryView>| #[trigger] pay_beneficiaries(m) == bytes_opt(*pl) implies false by {
                            assert(at(p@, 0, enc_beneficiary_list(m)));
                        }
                    }
                    None
                },
            }
        },
    }
}

pub open spec fn pay_endpoints(s: Seq<EndpointView>) -> Option<Seq<u8>> {
    if s.len() == 0 {
        None
    } else {
        Some(enc_endpoint_list(s))
    }
}

fn field_endpoints(pl: &Option<Vec<u8>>) -> (r: Option<Vec<ConsignmentEndpoint>>)
    ensures
        r matches Some(f) ==> pay_endpoints(endpoints_view(f@)) == bytes_opt(*pl),
        forall|m: Seq<EndpointView>| #[trigger] pay_endpoints(m) == bytes_opt(*pl) ==> (r matches Some(f) && endpoints_view(f@) == m),
{
    match pl {
        None => {
            let f: Vec<ConsignmentEndpoint> = Vec::new();
            proof {
                assert(endpoints_view(f@) =~= Seq::<EndpointView>::empty());
            }
            Some(f)
        },
        Some(p) => {
            proof {
                assert(p@.subrange(0, p@.len() as int) =~= p@);
            }
            match read_endpoints(p, 0) {
                Some((v, n)) => {
                    if n == p.len() && v.len() > 0 {
                        proof {
                            assert(p@.subrange(0, n as int) =~= p@);
                        }
                        Some(v)
                    } else {
                        proof {
                            assert forall|m: Seq<EndpointView>| #[trigger] pay_endpoints(m) == bytes_opt(*pl) implies false by {
                                assert(at(p@, 0, enc_endpoint_list(m)));
                            }
                        }
                        None
                    }
                },
                None => {
                    proof {
                        assert forall|m: Seq<EndpointView>| #[trigger] pay_endpoints(m) == bytes_opt(*pl) implies false by {
                            assert(at(p@, 0, enc_endpoint_list(m)));
                        }
                    }
                    None
                },
            }
        },
    }
}

pub open spec fn pay_asset(o: Option<Seq<u8>>) -> Option<Seq<u8>> {
    o
}

fn field_asset(pl: &Option<Vec<u8>>) -> (r: Option<Vec<u8>>)
    ensures
        pay_asset(bytes_opt(r)) == bytes_opt(*pl),
{
    match pl {
        None => None,
        Some(p) => Some(crate::invoice::copy_bytes(p)),
    }
}

pub open spec fn pay_expiry(o: Option<i64>) -> Option<Seq<u8>> {
    match o {
        Some(x) => Some(enc_u64(x as u64)),
        None => None,
    }
}

fn field_expiry(pl: &Option<Vec<u8>>) -> (r: Option<Option<i64>>)
    ensures
        r matches Some(f) ==> pay_expiry(f) == bytes_opt(*pl),
        forall|m: Option<i64>| #[trigger] pay_expiry(m) == bytes_opt(*pl) ==> r == Some(m),
{
    match pl {
        None => Some(None),
        Some(p) => {
            proof {
                lemma_int_lens();
                assert(p@.subrange(0, p@.len() as int) =~= p@);
            }
            match read_u64(p, 0) {
                Some((v, n)) => {
                    if n == p.len() {
                        let x = v as i64;
                        proof {
                            assert(p@.subrange(0, n as int) =~= p@);
                            assert((x as u64) == v) by (bit_vector)
                                requires x == v as i64;
                            assert forall|m: Option<i64>| #[trigger] pay_expiry(m) == bytes_opt(*pl) implies m == Some(x) by {
                                if let Some(y) = m {
                                    assert(at(p@, 0, enc_u64(y as u64)));
                                    assert((y as u64) == v);
                                    assert(((y as u64) as i64) == y) by (bit_vector);
                                }
                            }
                        }
                        Some(Some(x))
                    } else {
                        proof {
                            assert forall|m: Option<i64>| #[trigger] pay_expiry(m) == bytes_opt(*pl) implies false by {
                                if let Some(y) = m {
                                    assert(at(p@, 0, enc_u64(y as u64)));
                                }
                            }
                        }
                        None
                    }
                },
                None => {
                    proof {
                        assert forall|m: Option<i64>| #[trigger] pay_expiry(m) == bytes_opt(*pl) implies false by {
                            if let Some(y) = m {
                                assert(at(p@, 0, enc_u64(y as u64)));
                            }
                        }
                    }
                    None
                },
            }
        },
    }
}

pub open spec fn pay_recurrent(x: Recurrent) -> Option<Seq<u8>> {
    if x == Recurrent::NonRecurrent {
        None
    } else {
        Some(enc_recurrent(x))
    }
}

fn field_recurrent(pl: &Option<Vec<u8>>) -> (r: Option<Recurrent>)
    ensures
        r matches Some(f) ==> pay_recurrent(f) == bytes_opt(*pl),
        forall|m: Recurrent| #[trigger] pay_recurrent(m) == bytes_opt(*pl) ==> r == Some(m),
{
    match pl {
        None => Some(Recurrent::NonRecurrent),
        Some(p) => {
            proof {
                assert(p@.subrange(0, p@.len() as int) =~= p@);
            }
            match read_recurrent(p, 0) {
                Some((v, n)) => {
                    let non = match v {
                        Recurrent::NonRecurrent => true,
                        _ => false,
                    };
                    if n == p.len() && !non {
                        proof {
                            assert(p@.subrange(0, n as int) =~= p@);
                        }
                        Some(v)
                    } else {
                        proof {
                            assert forall|m: Recurrent| #[trigger] pay_recurrent(m) == bytes_opt(*pl) implies false by {
                                assert(at(p@, 0, enc_recurrent(m)));
                            }
                        }
                        None
                    }
                },
                None => {
                    proof {
                        assert forall|m: Recurrent| #[trigger] pay_recurrent(m) == bytes_opt(*pl) implies false by {
                            assert(at(p@, 0, enc_recurrent(m)));
                        }
                    }
                    None
                },
            }
        },
    }
}

pub open spec fn pay_text(o: Option<Seq<char>>) -> Option<Seq<u8>> {
    match o {
        Some(s) => Some(encode_utf8(s)),
        None => None,
    }
}

/// A free text is stored only when it is not empty.
pub open spec fn text_ok(o: Option<Seq<char>>) -> bool {
    o matches Some(s) ==> s.len() > 0
}

fn field_text(pl: &Option<Vec<u8>>) -> (r: Option<Option<String>>)
    ensures
        r matches Some(f) ==> pay_text(text_opt(f)) == bytes_opt(*pl) && text_ok(text_opt(f)),
        forall|m: Option<Seq<char>>| #[trigger] pay_text(m) == bytes_opt(*pl) && text_ok(m) ==> (r matches Some(f)
            && text_opt(f) == m),
{
    match pl {
        None => Some(None),
        Some(p) => {
            let ghost d = p@;
            if p.len() == 0 {
                proof {
                    assert forall|m: Option<Seq<char>>| #[trigger] pay_text(m) == bytes_opt(*pl) && text_ok(m) implies false by {
                        if let Some(s) = m {
                            assert(s.len() > 0);
                            encode_utf8_decode_utf8(s);
                            assert(encode_utf8(s).len() == 0);
                            assert(encode_utf8(s) =~= Seq::<u8>::empty());
                        }
                    }
                }
                return None;
            }
            let q = crate::invoice::copy_bytes(p);
            match text_from_utf8(q) {
                Some(s) => {
                    proof {
                        decode_utf8_encode_utf8(d);
                        if s@.len() == 0 {
                            assert(encode_utf8(s@) =~= Seq::<u8>::empty());
                        }
                        assert forall|m: Option<Seq<char>>| #[trigger] pay_text(m) == bytes_opt(*pl) && text_ok(m) implies text_opt(Some(s)) == m by {
                            if let Some(t) = m {
                                encode_utf8_decode_utf8(t);
                            }
                        }
                    }
                    Some(Some(s))
                },
                None => {
                    proof {
                        assert forall|m: Option<Seq<char>>| #[trigger] pay_text(m) == bytes_opt(*pl) && text_ok(m) implies false by {
                            if let Some(t) = m {
                                encode_utf8_valid_utf8(t);
                            }
                        }
                    }
                    None
                },
            }
        },
    }
}

/// The payloads of the known fields, by tag; `None` where a field holds its
/// default and has no record.
pub open spec fn payloads(v: InvoiceView) -> Seq<Option<Seq<u8>>> {
    seq![
        pay_signature(v.signature),
        pay_beneficiaries(v.alt_beneficiaries),
        pay_asset(v.asset),
        pay_expiry(v.expiry),
        pay_recurrent(v.recurrent),
        pay_text(v.merchant),
        pay_quantity(v.quantity),
        pay_text(v.purpose),
        pay_currency(v.currency_requirement),
        pay_details(v.details),
        pay_endpoints(v.consignment_endpoints),
        pay_network(v.network),
    ]
}

/// An invoice with its signature removed.
pub open spec fn unsigned(v: InvoiceView) -> InvoiceView {
    InvoiceView { signature: None, ..v }
}

/// The canonical binary encoding of an invoice.
pub open spec fn enc_invoice(v: InvoiceView) -> Seq<u8> {
    enc_layout(v.version, v.amount, v.beneficiary, payloads(v), v.unknown)
}

/// A valid invoice: free texts are not empty, and extension records have
/// tags above the known ones, in increasing order.
pub open spec fn invoice_wf(v: InvoiceView) -> bool {
    text_ok(v.merchant) && text_ok(v.purpose) && extension_tags_ok(v.unknown)
}

/// The binary data is not the canonical encoding of a valid invoice.
#[derive(Clone, Copy, Debug, PartialEq, Eq, Structural, PartialOrd, Ord, Hash)]
pub struct DecodeError;

fn put_opt_record(out: &mut Vec<u8>, t: u16, pl: &Option<Vec<u8>>)
    ensures
        final(out)@ == old(out)@ + enc_opt_record(t, bytes_opt(*pl)),
{
    match pl {
        Some(x) => {
            put_u16(out, t);
            put_blob(out, x);
            proof {
                assert(final(out)@ =~= old(out)@ + enc_opt_record(t, bytes_opt(*pl)));
            }
        },
        None => {
            proof {
                assert(out@ =~= old(out)@ + enc_opt_record(t, bytes_opt(*pl)));
            }
        },
    }
}

impl Invoice {
    #[verifier::rlimit(80)]
    fn payload_list(&self, signed: bool) -> (r: Vec<Option<Vec<u8>>>)
        ensures
            opt_bytes_view(r@) == payloads(if signed {
                self@
            } else {
                unsigned(self@)
            }),
    {
        let mut r: Vec<Option<Vec<u8>>> = Vec::new();
        let no_signature: Option<SignaturePair> = None;
        let signature = if signed {
            &self.signature
        } else {
            &no_signature
        };
        let sig = match signature {
            Some(pair) => {
                let mut v: Vec<u8> = Vec::new();
                put_pair(&mut v, &pair.0, &pair.1);
                Some(v)
            },
            None => None,
        };
        r.push(sig);
        let alt = if self.alt_beneficiaries.len() == 0 {
            None
        } else {
            let mut v: Vec<u8> = Vec::new();
            put_beneficiaries(&mut v, &self.alt_beneficiaries);
            Some(v)
        };
        r.push(alt);
        let asset = match &self.asset {
            Some(a) => Some(crate::invoice::copy_bytes(a)),
            None => None,
        };
        r.push(asset);
        let expiry = match self.expiry {
            Some(x) => {
                let mut v: Vec<u8> = Vec::new();
                put_u64(&mut v, x as u64);
                Some(v)
            },
            None => None,
        };
        r.push(expiry);
        let recurrent = match self.recurrent {
            Recurrent::NonRecurrent => None,
            x => {
                let mut v: Vec<u8> = Vec::new();
                put_recurrent(&mut v, x);
                Some(v)
            },
        };
        r.push(recurrent);
        let merchant = match &self.merchant {
            Some(s) => Some(s.as_str().as_bytes_vec()),
            None => None,
        };
        r.push(merchant);
        let quantity = match self.quantity {
            Some(q) => {
                let mut v: Vec<u8> = Vec::new();
                put_quantity(&mut v, q);
                Some(v)
            },
            None => None,
        };
        r.push(quantity);
        let purpose = match &self.purpose {
            Some(s) => Some(s.as_str().as_bytes_vec()),
            None => None,
        };
        r.push(purpose);
        let currency = match &self.currency_requirement {
            Some(c) => {
                let mut v: Vec<u8> = Vec::new();
                put_currency(&mut v, c);
                Some(v)
            },
            None => None,
        };
        r.push(currency);
        let details = match &self.details {
            Some(d) => {
                let mut v: Vec<u8> = Vec::new();
                put_details(&mut v, d);
                Some(v)
            },
            None => None,
        };
        r.push(details);
        let endpoints = if self.consignment_endpoints.len() == 0 {
            None
        } else {
            let mut v: Vec<u8> = Vec::new();
            put_endpoints(&mut v, &self.consignment_endpoints);
            Some(v)
        };
        r.push(endpoints);
        let network = match self.network {
            Some(n) => {
                let mut v: Vec<u8> = Vec::new();
                put_network(&mut v, n);
                Some(v)
            },
            None => None,
        };
        r.push(network);
        proof {
            let e = Seq::<u8>::empty();
            assert(bytes_opt(sig) == pay_signature(signature_opt(*signature))) by {
                if let Some(pair) = *signature {
                    assert(e + enc_pair((pair.0@, pair.1@)) =~= enc_pair((pair.0@, pair.1@)));
                }
            }
            assert(bytes_opt(alt) == pay_beneficiaries(self@.alt_beneficiaries)) by {
                if self.alt_beneficiaries@.len() > 0 {
                    assert(e + enc_beneficiary_list(self@.alt_beneficiaries) =~= enc_beneficiary_list(
                        self@.alt_beneficiaries,
                    ));
                }
            }
            assert(bytes_opt(expiry) == pay_expiry(self@.expiry)) by {
                if let Some(x) = self.expiry {
                    assert(e + enc_u64(x as u64) =~= enc_u64(x as u64));
                }
            }
            assert(bytes_opt(recurrent) == pay_recurrent(self@.recurrent)) by {
                assert(e + enc_recurrent(self.recurrent) =~= enc_recurrent(self.recurrent));
            }
            assert(bytes_opt(quantity) == pay_quantity(self@.quantity)) by {
                if let Some(q) = self.quantity {
                    assert(e + enc_quantity(q) =~= enc_quantity(q));
                }
            }
            assert(bytes_opt(currency) == pay_currency(self@.currency_requirement)) by {
                if let Some(c) = self.currency_requirement {
                    assert(e + enc_currency(c@) =~= enc_currency(c@));
                }
            }
            assert(bytes_opt(details) == pay_details(self@.details)) by {
                if let Some(d) = self.details {
                    assert(e + enc_details(d@) =~= enc_details(d@));
                }
            }
            assert(bytes_opt(endpoints) == pay_endpoints(self@.consignment_endpoints)) by {
                if self.consignment_endpoints@.len() > 0 {
                    assert(e + enc_endpoint_list(self@.consignment_endpoints) =~= enc_endpoint_list(
                        self@.consignment_endpoints,
                    ));
                }
            }
            assert(bytes_opt(network) == pay_network(self@.network)) by {
                if let Some(n) = self.network {
                    assert(e + enc_network(n) =~= enc_network(n));
                }
            }
            let target = if signed {
                self@
            } else {
                unsigned(self@)
            };
            assert(signature_opt(*signature) == target.signature);
            assert(opt_bytes_view(r@) =~= payloads(target));
        }
        r
    }

    /// The canonical binary encoding of the invoice, or of the invoice with
    /// no signature.
    fn write_encoding(&self, signed: bool) -> (r: Vec<u8>)
        ensures
            r@ == enc_invoice(if signed {
                self@
            } else {
                unsigned(self@)
            }),
    {
        let mut out: Vec<u8> = Vec::new();
        put_u8(&mut out, self.version);
        put_amount(&mut out, self.amount);
        put_beneficiary(&mut out, &self.beneficiary);
        let ghost core = out@;
        let pls = self.payload_list(signed);
        proof {
            assert(opt_bytes_view(pls@).len() == pls@.len());
            assert(payloads(self@).len() == 12);
            assert(payloads(unsigned(self@)).len() == 12);
            assert(out@ =~= core + enc_records_upto(opt_bytes_view(pls@), 0));
        }
        let mut t: usize = 0;
        while t < pls.len()
            invariant
                pls@.len() == known_tags(),
                t <= pls@.len(),
                out@ == core + enc_records_upto(opt_bytes_view(pls@), t as nat),
            decreases pls@.len() - t,
        {
            put_opt_record(&mut out, t as u16, &pls[t]);
            t = t + 1;
            proof {
                assert(out@ =~= core + enc_records_upto(opt_bytes_view(pls@), t as nat));
            }
        }
        let ghost recs = out@;
        let mut i: usize = 0;
        proof {
            assert(extensions_view(self.unknown@).take(0) =~= Seq::<(u16, Seq<u8>)>::empty());
            assert(out@ =~= recs + enc_extensions(extensions_view(self.unknown@).take(0)));
        }
        while i < self.unknown.len()
            invariant
                i <= self.unknown@.len(),
                out@ == recs + enc_extensions(extensions_view(self.unknown@).take(i as int)),
            decreases self.unknown@.len() - i,
        {
            put_u16(&mut out, self.unknown[i].0);
            put_blob(&mut out, &self.unknown[i].1);
            proof {
                let u = extensions_view(self.unknown@);
                lemma_extensions_push(u.take(i as int), u[i as int]);
                assert(u.take(i as int).push(u[i as int]) =~= u.take(i + 1));
                assert(out@ =~= recs + enc_extensions(u.take(i + 1)));
            }
            i = i + 1;
        }
        proof {
            assert(extensions_view(self.unknown@).take(i as int) =~= extensions_view(self.unknown@));
            assert(out@ =~= enc_invoice(if signed {
                self@
            } else {
                unsigned(self@)
            }));
        }
        out
    }

    /// The canonical binary encoding of the invoice.
    pub fn encode(&self) -> (r: Vec<u8>)
        ensures
            r@ == enc_invoice(self@),
    {
        self.write_encoding(true)
    }

    /// The digest that a signer signs: the merkle node hash of the canonical
    /// encoding of the invoice without its signature.
    pub fn signature_hash(&self) -> (r: Vec<u8>)
        ensures
            r@ == merkle_node_of(enc_invoice(unsigned(self@))),
            r@.len() == 32,
    {
        let bytes = self.write_encoding(false);
        merkle_node_hash(&bytes)
    }
}

pub open spec fn enc_core(version: u8, amount: AmountExt, beneficiary: BeneficiaryView) -> Seq<u8> {
    enc_u8(version) + enc_amount(amount) + enc_beneficiary(beneficiary)
}

/// The invoice, if the bytes are the canonical encoding of a valid one.
pub open spec fn decodes_to(b: Seq<u8>, v: InvoiceView) -> bool {
    invoice_wf(v) && enc_invoice(v) == b
}

proof fn lemma_layout(b: Seq<u8>, v: InvoiceView)
    requires
        decodes_to(b, v),
    ensures
        at(b, 0, enc_u8(v.version)),
        at(b, 1, enc_amount(v.amount)),
        at(b, 1 + enc_amount(v.amount).len() as int, enc_beneficiary(v.beneficiary)),
        b.subrange(
            enc_core(v.version, v.amount, v.beneficiary).len() as int,
            b.len() as int,
        ) == enc_records_from(payloads(v), 0) + enc_extensions(v.unknown),
{
    let a = enc_u8(v.version);
    let am = enc_amount(v.amount);
    let be = enc_beneficiary(v.beneficiary);
    let rest = enc_records_upto(payloads(v), known_tags()) + enc_extensions(v.unknown);
    lemma_records_split(payloads(v), 0);
    assert(enc_records_upto(payloads(v), 0) =~= Seq::<u8>::empty());
    assert(b =~= a + (am + (be + rest)));
    assert(b.subrange(0, b.len() as int) =~= b);
    assert(at(b, 0, a + (am + (be + rest))));
    lemma_at_split(b, 0, a, am + (be + rest));
    lemma_at_split(b, 1, am, be + rest);
    lemma_at_split(b, 1 + am.len() as int, be, rest);
    assert(b.subrange((a + am + be).len() as int, b.len() as int) =~= rest);
    assert(rest =~= enc_records_from(payloads(v), 0) + enc_extensions(v.unknown));
}

/// Reads the parts of an invoice encoding: version, amount, primary
/// beneficiary, the payload of each known tag, and the extension records.
#[verifier::rlimit(50)]
fn read_layout(b: &Vec<u8>) -> (r: Option<
    (u8, AmountExt, Beneficiary, Vec<Option<Vec<u8>>>, Vec<ExtensionField>),
>)
    ensures
        r matches Some((version, amount, beneficiary, pls, unknown)) ==> pls@.len() == known_tags()
            && extension_tags_ok(extensions_view(unknown@)) && b@ == enc_layout(
            version,
            amount,
            beneficiary@,
            opt_bytes_view(pls@),
            extensions_view(unknown@),
        ),
        forall|v: InvoiceView| #[trigger] decodes_to(b@, v) ==> (r matches Some(
            (version, amount, beneficiary, pls, unknown),
        ) && version == v.version && amount == v.amount && beneficiary@ == v.beneficiary
            && opt_bytes_view(pls@) == payloads(v) && extensions_view(unknown@) == v.unknown),
{
    proof {
        lemma_int_lens();
        assert forall|v: InvoiceView| #[trigger] decodes_to(b@, v) implies at(b@, 0, enc_u8(v.version))
            && at(b@, 1, enc_amount(v.amount)) && at(
            b@,
            1 + enc_amount(v.amount).len() as int,
            enc_beneficiary(v.beneficiary),
        ) by {
            lemma_layout(b@, v);
        }
    }
    let (version, at1) = match read_u8(b, 0) {
        Some(x) => x,
        None => return None,
    };
    let (amount, at2) = match read_amount(b, at1) {
        Some(x) => x,
        None => return None,
    };
    let (beneficiary, at3) = match read_beneficiary(b, at2) {
        Some(x) => x,
        None => return None,
    };
    let ghost core = enc_core(version, amount, beneficiary@);
    proof {
        lemma_at_split(b@, 0, enc_u8(version), enc_amount(amount));
        lemma_at_split(b@, 0, enc_u8(version) + enc_amount(amount), enc_beneficiary(beneficiary@));
        assert(b@.subrange(0, at3 as int) == core);
        assert forall|v: InvoiceView| #[trigger] decodes_to(b@, v) implies v.version == version
            && v.amount == amount && v.beneficiary == beneficiary@ && b@.subrange(
            at3 as int,
            b@.len() as int,
        ) == enc_records_from(payloads(v), 0) + enc_extensions(v.unknown) by {
            lemma_layout(b@, v);
        }
    }
    let mut pls: Vec<Option<Vec<u8>>> = Vec::new();
    let mut p = at3;
    let mut t: u16 = 0;
    proof {
        assert(opt_bytes_view(pls@) =~= Seq::<Option<Seq<u8>>>::empty());
        assert(core + enc_records_upto(opt_bytes_view(pls@), 0) =~= core);
        assert forall|v: InvoiceView| #[trigger] decodes_to(b@, v) implies opt_bytes_view(pls@)
            == payloads(v).take(0) by {
            assert(payloads(v).take(0) =~= Seq::<Option<Seq<u8>>>::empty());
        }
    }
    while t < 12
        invariant
            t <= 12,
            pls@.len() == t,
            at3 <= p <= b@.len(),
            b@.subrange(0, p as int) == core + enc_records_upto(opt_bytes_view(pls@), t as nat),
            forall|v: InvoiceView| #[trigger] decodes_to(b@, v) ==> v.version == version && v.amount
                == amount && v.beneficiary == beneficiary@ && opt_bytes_view(pls@) == payloads(v).take(
                t as int,
            ) && b@.subrange(p as int, b@.len() as int) == enc_records_from(payloads(v), t as nat)
                + enc_extensions(v.unknown),
        decreases 12 - t,
    {
        proof {
            assert forall|v: InvoiceView| #[trigger] decodes_to(b@, v) implies p <= b@.len()
                && b@.subrange(p as int, b@.len() as int) == enc_opt_record(t, payloads(v)[t as int]) + (
                enc_records_from(payloads(v), (t + 1) as nat) + enc_extensions(v.unknown))
                && starts_at_or_above(
                enc_records_from(payloads(v), (t + 1) as nat) + enc_extensions(v.unknown),
                (t + 1) as nat,
            ) by {
                lemma_records_start(payloads(v), (t + 1) as nat, v.unknown);
                assert(enc_records_from(payloads(v), t as nat) + enc_extensions(v.unknown) =~= enc_opt_record(
                    t,
                    payloads(v)[t as int],
                ) + (enc_records_from(payloads(v), (t + 1) as nat) + enc_extensions(v.unknown)));
            }
        }
        let (o, n) = match read_opt_record(b, p, t) {
            Some(x) => x,
            None => return None,
        };
        let ghost before = opt_bytes_view(pls@);
        pls.push(o);
        proof {
            assert(opt_bytes_view(pls@) =~= before.push(bytes_opt(o)));
            let e = enc_opt_record(t, bytes_opt(o));
            assert(b@.subrange(0, n as int) =~= b@.subrange(0, p as int) + b@.subrange(
                p as int,
                n as int,
            ));
            assert(enc_records_upto(opt_bytes_view(pls@), (t + 1) as nat) == enc_records_upto(
                opt_bytes_view(pls@),
                t as nat,
            ) + enc_opt_record(t, opt_bytes_view(pls@)[t as int]));
            assert(opt_bytes_view(pls@).take(t as int) =~= before);
            assert(before.take(t as int) =~= before);
            lemma_records_prefix(opt_bytes_view(pls@), before, t as nat);
            assert forall|v: InvoiceView| #[trigger] decodes_to(b@, v) implies opt_bytes_view(pls@)
                == payloads(v).take(t + 1) && b@.subrange(n as int, b@.len() as int)
                == enc_records_from(payloads(v), (t + 1) as nat) + enc_extensions(v.unknown) by {
                assert(payloads(v).take(t + 1) =~= payloads(v).take(t as int).push(payloads(v)[t as int]));
                let s = b@.subrange(p as int, b@.len() as int);
                assert(b@.subrange(n as int, b@.len() as int) =~= s.subrange(e.len() as int, s.len() as int));
                assert(s.subrange(e.len() as int, s.len() as int) =~= enc_records_from(
                    payloads(v),
                    (t + 1) as nat,
                ) + enc_extensions(v.unknown));
            }
        }
        p = n;
        t = t + 1;
    }
    let unknown = match read_extensions(b, p) {
        Some(u) => u,
        None => {
            proof {
                assert forall|v: InvoiceView| #[trigger] decodes_to(b@, v) implies false by {
                    assert(enc_records_from(payloads(v), 12) + enc_extensions(v.unknown) =~= enc_extensions(
                        v.unknown,
                    ));
                }
            }
            return None;
        },
    };
    proof {
        assert forall|v: InvoiceView| #[trigger] decodes_to(b@, v) implies opt_bytes_view(pls@) == payloads(v)
            && extensions_view(unknown@) == v.unknown by {
            assert(payloads(v).take(12) =~= payloads(v));
            assert(enc_records_from(payloads(v), 12) + enc_extensions(v.unknown) =~= enc_extensions(
                v.unknown,
            ));
        }
        assert(b@ =~= b@.subrange(0, p as int) + b@.subrange(p as int, b@.len() as int));
    }
    Some((version, amount, beneficiary, pls, unknown))
}

/// Builds an invoice from its parts, parsing the payload of each known tag.
#[verifier::rlimit(50)]
fn from_parts(
    version: u8,
    amount: AmountExt,
    beneficiary: Beneficiary,
    pls: Vec<Option<Vec<u8>>>,
    unknown: Vec<ExtensionField>,
) -> (r: Option<Invoice>)
    requires
        pls@.len() == known_tags(),
        extension_tags_ok(extensions_view(unknown@)),
    ensures
        r matches Some(x) ==> invoice_wf(x@) && payloads(x@) == opt_bytes_view(pls@) && x@.version
            == version && x@.amount == amount && x@.beneficiary == beneficiary@ && x@.unknown
            == extensions_view(unknown@),
        forall|v: InvoiceView|
            invoice_wf(v) && #[trigger] payloads(v) == opt_bytes_view(pls@) && v.version == version
                && v.amount == amount && v.beneficiary == beneficiary@ && v.unknown == extensions_view(
                unknown@,
            ) ==> (r matches Some(x) && x@ == v),
{
    let ghost pv = opt_bytes_view(pls@);
    proof {
        assert(pv[0] == bytes_opt(pls@[0]));
        assert(pv[1] == bytes_opt(pls@[1]));
        assert(pv[2] == bytes_opt(pls@[2]));
        assert(pv[3] == bytes_opt(pls@[3]));
        assert(pv[4] == bytes_opt(pls@[4]));
        assert(pv[5] == bytes_opt(pls@[5]));
        assert(pv[6] == bytes_opt(pls@[6]));
        assert(pv[7] == bytes_opt(pls@[7]));
        assert(pv[8] == bytes_opt(pls@[8]));
        assert(pv[9] == bytes_opt(pls@[9]));
        assert(pv[10] == bytes_opt(pls@[10]));
        assert(pv[11] == bytes_opt(pls@[11]));
    }
    let signature = field_signature(&pls[0]);
    let alt_beneficiaries = field_beneficiaries(&pls[1]);
    let asset = field_asset(&pls[2]);
    let expiry = field_expiry(&pls[3]);
    let recurrent = field_recurrent(&pls[4]);
    let merchant = field_text(&pls[5]);
    let quantity = field_quantity(&pls[6]);
    let purpose = field_text(&pls[7]);
    let currency_requirement = field_currency(&pls[8]);
    let details = field_details(&pls[9]);
    let consignment_endpoints = field_endpoints(&pls[10]);
    let network = field_network(&pls[11]);
    if signature.is_none() || alt_beneficiaries.is_none() || expiry.is_none() || recurrent.is_none()
        || merchant.is_none() || quantity.is_none() || purpose.is_none()
        || currency_requirement.is_none() || details.is_none() || consignment_endpoints.is_none()
        || network.is_none() {
        proof {
            assert forall|v: InvoiceView|
                invoice_wf(v) && #[trigger] payloads(v) == opt_bytes_view(pls@) && v.version == version
                    && v.amount == amount && v.beneficiary == beneficiary@ && v.unknown
                    == extensions_view(unknown@) implies false by {
                assert(payloads(v)[0] == pay_signature(v.signature));
                assert(payloads(v)[1] == pay_beneficiaries(v.alt_beneficiaries));
                assert(payloads(v)[3] == pay_expiry(v.expiry));
                assert(payloads(v)[4] == pay_recurrent(v.recurrent));
                assert(payloads(v)[5] == pay_text(v.merchant));
                assert(payloads(v)[6] == pay_quantity(v.quantity));
                assert(payloads(v)[7] == pay_text(v.purpose));
                assert(payloads(v)[8] == pay_currency(v.currency_requirement));
                assert(payloads(v)[9] == pay_details(v.details));
                assert(payloads(v)[10] == pay_endpoints(v.consignment_endpoints));
                assert(payloads(v)[11] == pay_network(v.network));
            }
        }
        return None;
    }
    let x = Invoice {
        version,
        amount,
        beneficiary,
        alt_beneficiaries: alt_beneficiaries.unwrap(),
        asset,
        expiry: expiry.unwrap(),
        recurrent: recurrent.unwrap(),
        quantity: quantity.unwrap(),
        currency_requirement: currency_requirement.unwrap(),
        merchant: merchant.unwrap(),
        purpose: purpose.unwrap(),
        details: details.unwrap(),
        signature: signature.unwrap(),
        consignment_endpoints: consignment_endpoints.unwrap(),
        network: network.unwrap(),
        unknown,
    };
    proof {
        assert(payloads(x@) =~= pv);
        assert forall|v: InvoiceView|
            invoice_wf(v) && #[trigger] payloads(v) == opt_bytes_view(pls@) && v.version == version
                && v.amount == amount && v.beneficiary == beneficiary@ && v.unknown == extensions_view(
                unknown@,
            ) implies x@ == v by {
            assert(payloads(v)[0] == pay_signature(v.signature));
            assert(payloads(v)[1] == pay_beneficiaries(v.alt_beneficiaries));
            assert(payloads(v)[2] == pay_asset(v.asset));
            assert(payloads(v)[3] == pay_expiry(v.expiry));
            assert(payloads(v)[4] == pay_recurrent(v.recurrent));
            assert(payloads(v)[5] == pay_text(v.merchant));
            assert(payloads(v)[6] == pay_quantity(v.quantity));
            assert(payloads(v)[7] == pay_text(v.purpose));
            assert(payloads(v)[8] == pay_currency(v.currency_requirement));
            assert(payloads(v)[9] == pay_details(v.details));
            assert(payloads(v)[10] == pay_endpoints(v.consignment_endpoints));
            assert(payloads(v)[11] == pay_network(v.network));
        }
    }
    Some(x)
}

impl Invoice {
    /// Decodes the canonical binary encoding of a valid invoice. Records with
    /// tags above the known ones are kept as extension fields.
    pub fn decode(b: &Vec<u8>) -> (r: Result<Invoice, DecodeError>)
        ensures
            r matches Ok(x) ==> decodes_to(b@, x@),
            forall|v: InvoiceView| #[trigger] decodes_to(b@, v) ==> (r matches Ok(x) && x@ == v),
    {
        let (version, amount, beneficiary, pls, unknown) = match read_layout(b) {
            Some(parts) => parts,
            None => return Err(DecodeError),
        };
        let ghost pv = opt_bytes_view(pls@);
        let ghost uv = extensions_view(unknown@);
        let ghost bv = beneficiary@;
        match from_parts(version, amount, beneficiary, pls, unknown) {
            Some(x) => Ok(x),
            None => {
                proof {
                    assert forall|v: InvoiceView| #[trigger] decodes_to(b@, v) implies false by {
                        assert(payloads(v) == pv);
                    }
                }
                Err(DecodeError)
            },
        }
    }
}

} // verus!
