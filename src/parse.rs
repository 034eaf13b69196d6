use vstd::prelude::*;
use vstd::string::{StrSliceExecFns, StringExecFns};

use crate::amount::chars_of;
use crate::external::{
    address_of, bytes_view_opt, concealed_seal_of, descriptor_of, node_addr_of, parse_address,
    parse_concealed_seal, parse_descriptor, parse_node_addr, text_view_opt,
};
use crate::types::{
    Beneficiary, BeneficiaryParseError, BeneficiaryView, ConsignmentEndpoint,
    ConsignmentEndpointParseError, EndpointView,
};

verus! {

/// The beneficiary a text names, given what each grammar reads from it: an
/// address first, then a concealed seal, then a descriptor.
pub open spec fn beneficiary_by_priority(
    address: Option<Seq<char>>,
    seal: Option<Seq<u8>>,
    descriptor: Option<Seq<char>>,
) -> Option<BeneficiaryView> {
    match address {
        Some(a) => Some(BeneficiaryView::Address(a)),
        None => match seal {
            Some(h) => Some(BeneficiaryView::BlindUtxo(h)),
            None => match descriptor {
                Some(d) => Some(BeneficiaryView::Descriptor(d)),
                None => None,
            },
        },
    }
}

pub open spec fn beneficiary_result_view(r: Result<Beneficiary, BeneficiaryParseError>) -> Option<
    BeneficiaryView,
> {
    match r {
        Ok(b) => Some(b@),
        Err(_) => None,
    }
}

impl Beneficiary {
    /// Picks the beneficiary from what the grammars read, by their priority.
    pub fn from_parsed(
        address: Option<String>,
        seal: Option<Vec<u8>>,
        descriptor: Option<String>,
    ) -> (r: Result<Beneficiary, BeneficiaryParseError>)
        ensures
            beneficiary_result_view(r) == beneficiary_by_priority(
                text_view_opt(address),
                bytes_view_opt(seal),
                text_view_opt(descriptor),
            ),
    {
        match address {
            Some(a) => Ok(Beneficiary::Address(a)),
            None => match seal {
                Some(h) => Ok(Beneficiary::BlindUtxo(h)),
                None => match descriptor {
                    Some(d) => Ok(Beneficiary::Descriptor(d)),
                    None => Err(BeneficiaryParseError),
                },
            },
        }
    }

    /// Parses a beneficiary from text: as an address, else as a concealed
    /// seal, else as a descriptor. Lightning nodes and transaction templates
    /// have no text form here.
    pub fn from_str(s: &str) -> (r: Result<Beneficiary, BeneficiaryParseError>)
        ensures
            beneficiary_result_view(r) == beneficiary_by_priority(
                match address_of(s@) {
                    Some(p) => Some(p.0),
                    None => None,
                },
                concealed_seal_of(s@),
                descriptor_of(s@),
            ),
    {
        let address = match parse_address(s) {
            Some((a, _)) => Some(a),
            None => None,
        };
        if address.is_some() {
            return Beneficiary::from_parsed(address, None, None);
        }
        let seal = parse_concealed_seal(s);
        if seal.is_some() {
            return Beneficiary::from_parsed(None, seal, None);
        }
        let descriptor = parse_descriptor(s);
        Beneficiary::from_parsed(None, None, descriptor)
    }
}

/// Position of the first `:` in a text.
pub open spec fn first_colon(s: Seq<char>) -> Option<int> {
    if exists|i: int| 0 <= i < s.len() && s[i] == ':' {
        Some(choose|i: int| 0 <= i < s.len() && s[i] == ':' && forall|k: int| 0 <= k < i ==> s[k] != ':')
    } else {
        None
    }
}

pub open spec fn storm_scheme() -> Seq<char> {
    seq!['s', 't', 'o', 'r', 'm']
}

pub open spec fn rpc_scheme() -> Seq<char> {
    seq!['r', 'g', 'b', 'h', 't', 't', 'p', 'j', 's', 'o', 'n', 'r', 'p', 'c']
}

/// The endpoint a `scheme:payload` text names: a storm node address, or the
/// URL of an RGB HTTP JSON-RPC service.
pub open spec fn endpoint_of(s: Seq<char>) -> Option<EndpointView> {
    match first_colon(s) {
        None => None,
        Some(i) => {
            let scheme = s.subrange(0, i);
            let payload = s.subrange(i + 1, s.len() as int);
            if scheme == storm_scheme() {
                match node_addr_of(payload) {
                    Some(a) => Some(EndpointView::Storm(a)),
                    None => None,
                }
            } else if scheme == rpc_scheme() {
                Some(EndpointView::RgbHttpJsonRpc(payload))
            } else {
                None
            }
        },
    }
}

proof fn lemma_first_colon(s: Seq<char>, p: int)
    requires
        0 <= p < s.len(),
        s[p] == ':',
        forall|k: int| 0 <= k < p ==> s[k] != ':',
    ensures
        first_colon(s) == Some(p),
{
    let i = choose|i: int| 0 <= i < s.len() && s[i] == ':' && forall|k: int| 0 <= k < i ==> s[k] != ':';
    assert(0 <= i < s.len() && s[i] == ':' && forall|k: int| 0 <= k < i ==> s[k] != ':');
    if i < p {
        assert(s[i] != ':');
    } else if i > p {
        assert(s[p] != ':');
    }
}

/// Whether `s[from..to]` is `word`.
fn chars_equal(s: &Vec<char>, from: usize, to: usize, word: &Vec<char>) -> (r: bool)
    requires
        from <= to <= s@.len(),
    ensures
        r == (s@.subrange(from as int, to as int) == word@),
{
    if to - from != word.len() {
        return false;
    }
    let mut i: usize = 0;
    while i < word.len()
        invariant
            to - from == word@.len(),
            from <= to <= s@.len(),
            i <= word@.len(),
            forall|k: int| 0 <= k < i ==> s@[from + k] == word@[k],
        decreases word@.len() - i,
    {
        if s[from + i] != word[i] {
            proof {
                assert(s@.subrange(from as int, to as int)[i as int] != word@[i as int]);
            }
            return false;
        }
        i = i + 1;
    }
    proof {
        assert(s@.subrange(from as int, to as int) =~= word@);
    }
    true
}

pub open spec fn endpoint_result_view(r: Result<ConsignmentEndpoint, ConsignmentEndpointParseError>) -> Option<
    EndpointView,
> {
    match r {
        Ok(e) => Some(e@),
        Err(_) => None,
    }
}

impl ConsignmentEndpoint {
    /// Parses a `scheme:payload` text.
    pub fn from_str(s: &str) -> (r: Result<ConsignmentEndpoint, ConsignmentEndpointParseError>)
        ensures
            endpoint_result_view(r) == endpoint_of(s@),
    {
        let cs = chars_of(s);
        let n = cs.len();
        let mut i: usize = 0;
        while i < n && cs[i] != ':'
            invariant
                i <= n == cs@.len(),
                cs@ == s@,
                forall|k: int| 0 <= k < i ==> cs@[k] != ':',
            decreases n - i,
        {
            i = i + 1;
        }
        if i == n {
            proof {
                assert(!(exists|j: int| 0 <= j < s@.len() && s@[j] == ':'));
            }
            return Err(ConsignmentEndpointParseError);
        }
        proof {
            lemma_first_colon(s@, i as int);
        }
        let storm: Vec<char> = vec!['s', 't', 'o', 'r', 'm'];
        let rpc: Vec<char> = vec![
            'r', 'g', 'b', 'h', 't', 't', 'p', 'j', 's', 'o', 'n', 'r', 'p', 'c',
        ];
        proof {
            assert(storm@ =~= storm_scheme());
            assert(rpc@ =~= rpc_scheme());
        }
        let payload = s.substring_char(i + 1, n);
        if chars_equal(&cs, 0, i, &storm) {
            match parse_node_addr(payload) {
                Some(a) => Ok(ConsignmentEndpoint::Storm(a)),
                None => Err(ConsignmentEndpointParseError),
            }
        } else if chars_equal(&cs, 0, i, &rpc) {
            Ok(ConsignmentEndpoint::RgbHttpJsonRpc(String::from_str(payload)))
        } else {
            Err(ConsignmentEndpointParseError)
        }
    }
}

} // verus!
