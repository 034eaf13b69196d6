use vstd::prelude::*;

use crate::amount::chars_of;
use crate::codec::{decodes_to, enc_invoice, invoice_wf, DecodeError};
use crate::external::{
    bech32_decode, bech32_parts, bech32m_encode, bech32m_text, deflate_best, deflated, inflate,
    inflated, lower_hrp,
};
use crate::invoice::{Invoice, InvoiceView};

verus! {

/// Human-readable part of the text form of an invoice.
pub open spec fn invoice_hrp() -> Seq<char> {
    seq!['i']
}

/// Leading byte of the text payload: the bytes that follow are DEFLATE
/// compressed.
pub open spec fn deflate_marker() -> u8 {
    1
}

/// The text form of an invoice: Bech32m, with the `i` prefix, of the
/// compressed canonical binary encoding.
pub open spec fn invoice_text(v: InvoiceView) -> Seq<char> {
    bech32m_text(invoice_hrp(), seq![deflate_marker()] + deflated(enc_invoice(v)))
}

/// Errors of reading an invoice from its text form.
#[derive(Clone, Copy, Debug, PartialEq, Eq, Structural, PartialOrd, Ord, Hash)]
pub enum TextParseError {
    /// Not a valid Bech32 string
    Bech32,
    /// The human-readable part is not the one of invoices
    WrongPrefix,
    /// Bech32m encoding must be used instead of legacy Bech32
    WrongVariant,
    /// The payload does not start with an encoding byte
    NoEncodingPrefix,
    /// The payload uses an unknown encoding
    UnknownRawDataEncoding,
    /// The compressed payload does not inflate
    Inflate,
    /// The binary data are not a valid invoice
    Data,
}

/// The canonical binary encoding that a text holds, or why it holds none.
pub open spec fn text_payload(s: Seq<char>) -> Result<Seq<u8>, TextParseError> {
    match bech32_parts(s) {
        None => Err(TextParseError::Bech32),
        Some((h, m, d)) => if h != invoice_hrp() {
            Err(TextParseError::WrongPrefix)
        } else if !m {
            Err(TextParseError::WrongVariant)
        } else if d.len() == 0 {
            Err(TextParseError::NoEncodingPrefix)
        } else if d[0] != deflate_marker() {
            Err(TextParseError::UnknownRawDataEncoding)
        } else {
            match inflated(d.skip(1)) {
                None => Err(TextParseError::Inflate),
                Some(b) => Ok(b),
            }
        },
    }
}

/// Lexicographic order of texts, as `String` orders them.
pub open spec fn text_cmp(a: Seq<char>, b: Seq<char>) -> core::cmp::Ordering
    decreases a.len(),
{
    if a.len() == 0 {
        if b.len() == 0 {
            core::cmp::Ordering::Equal
        } else {
            core::cmp::Ordering::Less
        }
    } else if b.len() == 0 {
        core::cmp::Ordering::Greater
    } else if a[0] < b[0] {
        core::cmp::Ordering::Less
    } else if a[0] > b[0] {
        core::cmp::Ordering::Greater
    } else {
        text_cmp(a.drop_first(), b.drop_first())
    }
}

/// Compares two texts lexicographically.
pub fn compare_text(a: &str, b: &str) -> (r: core::cmp::Ordering)
    ensures
        r == text_cmp(a@, b@),
{
    let x = chars_of(a);
    let y = chars_of(b);
    let mut i: usize = 0;
    proof {
        assert(a@.skip(0) =~= a@);
        assert(b@.skip(0) =~= b@);
    }
    while i < x.len() && i < y.len() && x[i] == y[i]
        invariant
            i <= x@.len(),
            i <= y@.len(),
            x@ == a@,
            y@ == b@,
            text_cmp(a@, b@) == text_cmp(a@.skip(i as int), b@.skip(i as int)),
        decreases x@.len() - i,
    {
        proof {
            let s = a@.skip(i as int);
            let t = b@.skip(i as int);
            assert(s.drop_first() =~= a@.skip(i + 1));
            assert(t.drop_first() =~= b@.skip(i + 1));
        }
        i = i + 1;
    }
    let ghost s = a@.skip(i as int);
    let ghost t = b@.skip(i as int);
    if i == x.len() {
        if i == y.len() {
            core::cmp::Ordering::Equal
        } else {
            core::cmp::Ordering::Less
        }
    } else if i == y.len() {
        core::cmp::Ordering::Greater
    } else if x[i] < y[i] {
        proof {
            assert(s[0] == a@[i as int]);
            assert(t[0] == b@[i as int]);
        }
        core::cmp::Ordering::Less
    } else {
        proof {
            assert(s[0] == a@[i as int]);
            assert(t[0] == b@[i as int]);
        }
        core::cmp::Ordering::Greater
    }
}

impl Invoice {
    /// The text form of the invoice.
    pub fn to_string(&self) -> (r: String)
        ensures
            r@ == invoice_text(self@),
    {
        let bytes = self.encode();
        let packed = deflate_best(&bytes);
        let mut data: Vec<u8> = Vec::new();
        data.push(1);
        crate::codec::put_bytes(&mut data, &packed);
        proof {
            reveal_strlit("i");
            assert(data@ =~= seq![deflate_marker()] + deflated(enc_invoice(self@)));
            assert("i"@ =~= invoice_hrp());
        }
        bech32m_encode("i", &data)
    }

    /// Reads an invoice from its text form.
    pub fn from_str(s: &str) -> (r: Result<Invoice, TextParseError>)
        ensures
            match text_payload(s@) {
                Err(e) => r == Err::<Invoice, TextParseError>(e),
                Ok(b) => (r matches Ok(x) ==> decodes_to(b, x@)) && (r matches Err(e) ==> e
                    == TextParseError::Data) && forall|v: InvoiceView| #[trigger] decodes_to(b, v) ==> (r matches Ok(
                    x,
                ) && x@ == v),
            },
            forall|v: InvoiceView| invoice_wf(v) && #[trigger] invoice_text(v) == s@ ==> (r matches Ok(x)
                && x@ == v),
    {
        proof {
            reveal_strlit("i");
            assert(lower_hrp(invoice_hrp()));
        }
        let (hrp, is_m, data) = match bech32_decode(s) {
            Some(parts) => parts,
            None => return Err(TextParseError::Bech32),
        };
        proof {
            assert forall|v: InvoiceView| invoice_wf(v) && #[trigger] invoice_text(v) == s@ implies hrp@
                == invoice_hrp() && is_m && data@ == seq![deflate_marker()] + deflated(enc_invoice(v)) by {
            }
        }
        let h = chars_of(hrp.as_str());
        let is_invoice = h.len() == 1 && h[0] == 'i';
        proof {
            if is_invoice {
                assert(hrp@ =~= invoice_hrp());
            } else {
                assert(hrp@ != invoice_hrp()) by {
                    if hrp@ == invoice_hrp() {
                        assert(h@[0] == 'i');
                    }
                }
            }
        }
        if !is_invoice {
            return Err(TextParseError::WrongPrefix);
        }
        if !is_m {
            return Err(TextParseError::WrongVariant);
        }
        if data.len() == 0 {
            return Err(TextParseError::NoEncodingPrefix);
        }
        if data[0] != 1 {
            return Err(TextParseError::UnknownRawDataEncoding);
        }
        let body = crate::codec::take(&data, 1, data.len() - 1);
        proof {
            assert(body@ =~= data@.skip(1));
            assert forall|v: InvoiceView| invoice_wf(v) && #[trigger] invoice_text(v) == s@ implies deflated(
                enc_invoice(v),
            ) == body@ by {
                assert((seq![deflate_marker()] + deflated(enc_invoice(v))).skip(1) =~= deflated(
                    enc_invoice(v),
                ));
            }
        }
        let bytes = match inflate(&body) {
            Some(b) => b,
            None => return Err(TextParseError::Inflate),
        };
        proof {
            assert forall|v: InvoiceView| invoice_wf(v) && #[trigger] invoice_text(v) == s@ implies decodes_to(
                bytes@,
                v,
            ) by {
                assert(deflated(enc_invoice(v)) == body@);
            }
        }
        match Invoice::decode(&bytes) {
            Ok(x) => Ok(x),
            Err(DecodeError) => Err(TextParseError::Data),
        }
    }

    /// Orders invoices by their text forms.
    pub fn cmp(&self, other: &Invoice) -> (r: core::cmp::Ordering)
        ensures
            r == text_cmp(invoice_text(self@), invoice_text(other@)),
    {
        let a = self.to_string();
        let b = other.to_string();
        compare_text(a.as_str(), b.as_str())
    }

    /// Whether the invoice comes before `other`: its text form is smaller.
    pub fn lt(&self, other: &Invoice) -> (r: bool)
        ensures
            r == (text_cmp(invoice_text(self@), invoice_text(other@)) == core::cmp::Ordering::Less),
    {
        match self.cmp(other) {
            core::cmp::Ordering::Less => true,
            _ => false,
        }
    }
}

} // verus!
