use vstd::prelude::*;

use crate::amount::{chars_of, is_white};

verus! {

/// Formatting of invoice data for the command line.
#[derive(Clone, Copy, Debug, PartialEq, Eq, Structural, PartialOrd, Ord, Hash)]
pub enum Format {
    /// Format according to the rust debug rules
    Debug,
    /// Format using Bech32 representation
    Bech32m,
    /// Format using Base58 encoding
    Base58,
    /// Format using Base64 encoding
    Base64,
    /// Format as YAML
    Yaml,
    /// Format as JSON
    Json,
    /// Format according to the strict encoding rules
    Hexadecimal,
    /// Format as a rust array (using hexadecimal byte values)
    Rust,
    /// Produce binary (raw) output according to the canonical encoding
    Raw,
}

/// The text is not the name of a format.
#[derive(Clone, Copy, Debug, PartialEq, Eq, Structural, PartialOrd, Ord, Hash)]
pub struct UnknownFormat;

pub open spec fn lower(c: char) -> char {
    if 'A' <= c && c <= 'Z' {
        ((c as u8) + 32) as char
    } else {
        c
    }
}

/// Whether `s`, with white space around it and in any case, is `name`.
#[verifier::opaque]
pub open spec fn names(s: Seq<char>, name: Seq<char>) -> bool {
    exists|i: int|
        0 <= i && i + name.len() <= s.len() && (forall|k: int|
            0 <= k < name.len() ==> lower(#[trigger] s[i + k]) == name[k]) && (forall|k: int|
            0 <= k < s.len() && (k < i || k >= i + name.len()) ==> is_white(s[k])) && (name.len()
            == 0 || !is_white(s[i]))
}

pub open spec fn format_name(f: Format) -> Seq<char> {
    match f {
        Format::Debug => seq!['d', 'e', 'b', 'u', 'g'],
        Format::Bech32m => seq!['b', 'e', 'c', 'h', '3', '2'],
        Format::Base58 => seq!['b', 'a', 's', 'e', '5', '8'],
        Format::Base64 => seq!['b', 'a', 's', 'e', '6', '4'],
        Format::Yaml => seq!['y', 'a', 'm', 'l'],
        Format::Json => seq!['j', 's', 'o', 'n'],
        Format::Hexadecimal => seq!['h', 'e', 'x'],
        Format::Rust => seq!['r', 'u', 's', 't'],
        Format::Raw => seq!['r', 'a', 'w'],
    }
}

fn lower_char(c: char) -> (r: char)
    ensures
        r == lower(c),
{
    if 'A' <= c && c <= 'Z' {
        ((c as u8) + 32) as char
    } else {
        c
    }
}

/// The position of the first and one past the last character that is not
/// white space, or an empty range.
fn trimmed_range(s: &Vec<char>) -> (r: (usize, usize))
    ensures
        r.0 <= r.1 <= s@.len(),
        forall|k: int| 0 <= k < s@.len() && (k < r.0 || k >= r.1) ==> is_white(s@[k]),
        r.0 < r.1 ==> !is_white(s@[r.0 as int]) && !is_white(s@[r.1 - 1]),
{
    let n = s.len();
    let mut i: usize = 0;
    while i < n && crate::amount::white_char(s[i])
        invariant
            i <= n == s@.len(),
            forall|k: int| 0 <= k < i ==> is_white(s@[k]),
        decreases n - i,
    {
        i = i + 1;
    }
    let mut j: usize = n;
    while j > i && crate::amount::white_char(s[j - 1])
        invariant
            i <= j <= n == s@.len(),
            forall|k: int| 0 <= k < i ==> is_white(s@[k]),
            forall|k: int| j <= k < n ==> is_white(s@[k]),
        decreases j,
    {
        j = j - 1;
    }
    (i, j)
}

/// Whether `s[from..to]`, in lower case, is `name`.
fn lower_equal(s: &Vec<char>, from: usize, to: usize, name: &Vec<char>) -> (r: bool)
    requires
        from <= to <= s@.len(),
    ensures
        r == (to - from == name@.len() && forall|k: int|
            0 <= k < name@.len() ==> lower(#[trigger] s@[from + k]) == name@[k]),
{
    if to - from != name.len() {
        return false;
    }
    let mut k: usize = 0;
    while k < name.len()
        invariant
            to - from == name@.len(),
            from <= to <= s@.len(),
            k <= name@.len(),
            forall|m: int| 0 <= m < k ==> lower(#[trigger] s@[from + m]) == name@[m],
        decreases name@.len() - k,
    {
        if lower_char(s[from + k]) != name[k] {
            return false;
        }
        k = k + 1;
    }
    true
}

proof fn lemma_names_unique(s: Seq<char>, name: Seq<char>, i: int, j: int)
    requires
        0 <= i <= j <= s.len(),
        forall|k: int| 0 <= k < s.len() && (k < i || k >= j) ==> is_white(s[k]),
        i < j ==> !is_white(s[i]) && !is_white(s[j - 1]),
        name.len() > 0,
        forall|k: int| 0 <= k < name.len() ==> !is_white(#[trigger] name[k]),
    ensures
        names(s, name) <==> (j - i == name.len() && forall|k: int|
            0 <= k < name.len() ==> lower(#[trigger] s[i + k]) == name[k]),
{
    reveal(names);
    if names(s, name) {
        let p = choose|p: int|
            0 <= p && p + name.len() <= s.len() && (forall|k: int|
                0 <= k < name.len() ==> lower(#[trigger] s[p + k]) == name[k]) && (forall|k: int|
                0 <= k < s.len() && (k < p || k >= p + name.len()) ==> is_white(s[k])) && (name.len()
                == 0 || !is_white(s[p]));
        assert(lower(s[p + 0]) == name[0]);
        let q = p + (name.len() - 1);
        assert(lower(s[p + (name.len() - 1)]) == name[name.len() - 1]);
        // lower case keeps white space as it is
        assert(!is_white(s[p]));
        assert(!is_white(s[q])) by {
            assert(!is_white(name[name.len() - 1]));
        }
        if p < i {
            assert(is_white(s[p]));
        }
        if p > i {
            assert(is_white(s[i]));
        }
        if q >= j {
            assert(is_white(s[q]));
        }
        if q < j - 1 {
            assert(is_white(s[j - 1]));
        }
    } else {
        if j - i == name.len() && forall|k: int|
            0 <= k < name.len() ==> lower(#[trigger] s[i + k]) == name[k] {
            assert(!is_white(s[i]));
        }
    }
}

proof fn lemma_format_name_injective(f: Format, g: Format)
    requires
        format_name(f) == format_name(g),
    ensures
        f == g,
{
    let a = format_name(f);
    let b = format_name(g);
    assert(a.len() == b.len());
    assert(a[0] == b[0]);
    assert(a[1] == b[1]);
    if a.len() >= 5 {
        assert(a[4] == b[4]);
    }
}

proof fn lemma_format_names_plain(f: Format)
    ensures
        format_name(f).len() > 0,
        forall|k: int| 0 <= k < format_name(f).len() ==> !is_white(#[trigger] format_name(f)[k]),
        format_name(f) != seq!['b', 'i', 'n'],
{
    assert(format_name(f).len() != 3 || format_name(f)[0] != 'b');
}

impl Format {
    /// The name of the format.
    pub fn name(&self) -> (r: &'static str)
        ensures
            r@ == format_name(*self),
    {
        proof {
            reveal_strlit("debug");
            reveal_strlit("bech32");
            reveal_strlit("base58");
            reveal_strlit("base64");
            reveal_strlit("yaml");
            reveal_strlit("json");
            reveal_strlit("hex");
            reveal_strlit("rust");
            reveal_strlit("raw");
        }
        let r = match self {
            Format::Debug => "debug",
            Format::Bech32m => "bech32",
            Format::Base58 => "base58",
            Format::Base64 => "base64",
            Format::Yaml => "yaml",
            Format::Json => "json",
            Format::Hexadecimal => "hex",
            Format::Rust => "rust",
            Format::Raw => "raw",
        };
        proof {
            assert(r@ =~= format_name(*self));
        }
        r
    }

    /// Reads a format by its name, in any case and with white space around
    /// it; `bin` names the raw format too.
    #[verifier::rlimit(60)]
    pub fn from_str(s: &str) -> (r: Result<Format, UnknownFormat>)
        ensures
            forall|f: Format| #[trigger] names(s@, format_name(f)) ==> r == Ok::<Format, UnknownFormat>(f),
            names(s@, seq!['b', 'i', 'n']) ==> r == Ok::<Format, UnknownFormat>(Format::Raw),
            r matches Ok(f) ==> names(s@, format_name(f)) || (f == Format::Raw && names(
                s@,
                seq!['b', 'i', 'n'],
            )),
    {
        let cs = chars_of(s);
        let (i, j) = trimmed_range(&cs);
        let all: Vec<Format> = vec![
            Format::Debug,
            Format::Base58,
            Format::Base64,
            Format::Bech32m,
            Format::Yaml,
            Format::Json,
            Format::Hexadecimal,
            Format::Raw,
            Format::Rust,
        ];
        let mut n: usize = 0;
        proof {
            assert(all@.len() == 9);
        }
        while n < all.len()
            invariant
                i <= j <= cs@.len(),
                cs@ == s@,
                forall|k: int| 0 <= k < cs@.len() && (k < i || k >= j) ==> is_white(cs@[k]),
                i < j ==> !is_white(cs@[i as int]) && !is_white(cs@[j - 1]),
                all@ == seq![
                    Format::Debug,
                    Format::Base58,
                    Format::Base64,
                    Format::Bech32m,
                    Format::Yaml,
                    Format::Json,
                    Format::Hexadecimal,
                    Format::Raw,
                    Format::Rust,
                ],
                forall|m: int| 0 <= m < n ==> !names(s@, format_name(#[trigger] all@[m])),
            n <= all@.len(),
            decreases all@.len() - n,
        {
            let f = all[n];
            let name = chars_of(f.name());
            proof {
                lemma_format_names_plain(f);
                lemma_names_unique(s@, format_name(f), i as int, j as int);
            }
            if lower_equal(&cs, i, j, &name) {
                proof {
                    assert forall|g: Format| #[trigger] names(s@, format_name(g)) implies g == f by {
                        lemma_format_names_plain(g);
                        lemma_names_unique(s@, format_name(g), i as int, j as int);
                        assert forall|k: int| 0 <= k < format_name(f).len() implies format_name(g)[k]
                            == format_name(f)[k] by {
                            assert(lower(cs@[i + k]) == name@[k]);
                            assert(lower(s@[i + k]) == format_name(g)[k]);
                        }
                        assert(format_name(g) =~= format_name(f));
                        lemma_format_name_injective(f, g);
                    }
                    let bin = seq!['b', 'i', 'n'];
                    if names(s@, bin) {
                        lemma_names_unique(s@, bin, i as int, j as int);
                        assert forall|k: int| 0 <= k < bin.len() implies bin[k] == format_name(f)[k] by {
                            assert(lower(cs@[i + k]) == name@[k]);
                            assert(lower(s@[i + k]) == bin[k]);
                        }
                        assert(bin =~= format_name(f));
                    }
                }
                return Ok(f);
            }
            n = n + 1;
        }
        let bin: Vec<char> = vec!['b', 'i', 'n'];
        proof {
            lemma_names_unique(s@, seq!['b', 'i', 'n'], i as int, j as int);
            assert(bin@ =~= seq!['b', 'i', 'n']);
        }
        if lower_equal(&cs, i, j, &bin) {
            return Ok(Format::Raw);
        }
        proof {
            assert forall|g: Format| !names(s@, format_name(g)) by {
                match g {
                    Format::Debug => assert(all@[0] == g),
                    Format::Base58 => assert(all@[1] == g),
                    Format::Base64 => assert(all@[2] == g),
                    Format::Bech32m => assert(all@[3] == g),
                    Format::Yaml => assert(all@[4] == g),
                    Format::Json => assert(all@[5] == g),
                    Format::Hexadecimal => assert(all@[6] == g),
                    Format::Raw => assert(all@[7] == g),
                    Format::Rust => assert(all@[8] == g),
                }
                lemma_format_names_plain(g);
            }
        }
        Err(UnknownFormat)
    }
}

} // verus!
