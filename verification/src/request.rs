//! Building the entity-search request URL.

use crate::percent::lemma_percent_encoding_injective;
use crate::percent::percent_encode;
use crate::percent::percent_encoding;
use vstd::prelude::*;
use vstd::string::StringSliceAdditionalSpecFns;
use vstd::utf8::encode_utf8;

verus! {

/// Everything in the request URL that comes before the term: the fixed
/// endpoint and the three fixed query parameters, followed by the name
/// of the `search` parameter.
pub open spec fn url_prefix_bytes() -> Seq<u8> {
    "https://www.wikidata.org/w/api.php".spec_bytes()
        + "?action=wbsearchentities".spec_bytes() + "&format=json".spec_bytes()
        + "&language=en".spec_bytes() + "&search=".spec_bytes()
}

/// The request URL for a term whose UTF-8 bytes are `term_bytes`: the
/// fixed prefix with the percent-encoded term as the `search` value.
pub open spec fn search_url_spec(term_bytes: Seq<u8>) -> Seq<u8> {
    url_prefix_bytes() + percent_encoding(term_bytes)
}

fn push_bytes(out: &mut Vec<u8>, s: &[u8])
    ensures
        final(out)@ == old(out)@ + s@,
{
    let mut i: usize = 0;
    while i < s.len()
        invariant
            i <= s@.len(),
            out@ == old(out)@ + s@.take(i as int),
        decreases s@.len() - i,
    {
        out.push(s[i]);
        proof {
            assert(s@.take(i as int).push(s@[i as int]) =~= s@.take(i as int + 1));
            assert((old(out)@ + s@.take(i as int)).push(s@[i as int]) =~= old(out)@ + s@.take(
                i as int + 1,
            ));
        }
        i = i + 1;
    }
    proof {
        assert(s@.take(s@.len() as int) =~= s@);
    }
}

/// Build the full request URL for `term`, as bytes.
pub fn search_url(term: &str) -> (url: Vec<u8>)
    requires
        term@.len() > 0,
    ensures
        url@ == search_url_spec(term.spec_bytes()),
{
    let mut url: Vec<u8> = Vec::new();
    push_bytes(&mut url, "https://www.wikidata.org/w/api.php".as_bytes());
    push_bytes(&mut url, "?action=wbsearchentities".as_bytes());
    push_bytes(&mut url, "&format=json".as_bytes());
    push_bytes(&mut url, "&language=en".as_bytes());
    push_bytes(&mut url, "&search=".as_bytes());
    let encoded = percent_encode(term.as_bytes());
    push_bytes(&mut url, encoded.as_slice());
    proof {
        assert(url@ =~= search_url_spec(term.spec_bytes()));
    }
    url
}

/// Different terms give different request URLs: each request is built
/// from its own term alone, and no state is carried from one into the
/// next.
pub proof fn lemma_search_urls_independent(t1: Seq<u8>, t2: Seq<u8>)
    requires
        t1 != t2,
    ensures
        search_url_spec(t1) != search_url_spec(t2),
{
    let p = url_prefix_bytes();
    let e1 = percent_encoding(t1);
    let e2 = percent_encoding(t2);
    if p + e1 == p + e2 {
        assert((p + e1).len() == (p + e2).len());
        assert(e1.len() == e2.len());
        assert forall|k: int| 0 <= k < e1.len() implies e1[k] == e2[k] by {
            assert((p + e1)[p.len() + k] == e1[k]);
            assert((p + e2)[p.len() + k] == e2[k]);
        }
        assert(e1 =~= e2);
        lemma_percent_encoding_injective(t1, t2);
        assert(false);
    }
}

/// One entity-search request: a non-empty term. The language and the
/// response format are fixed (`en`, `json`) and part of the URL prefix.
pub struct SearchRequest {
    term: String,
}

impl SearchRequest {
    /// The term the request searches for.
    pub closed spec fn term_view(&self) -> Seq<char> {
        self.term@
    }

    /// A request always holds a non-empty term.
    pub open spec fn wf(&self) -> bool {
        self.term_view().len() > 0
    }

    /// Make a request for `term`; `None` when `term` is empty, which the
    /// client does not accept.
    pub fn new(term: String) -> (r: Option<SearchRequest>)
        ensures
            term@.len() == 0 ==> r is None,
            term@.len() > 0 ==> (r matches Some(req) && req.term_view() == term@ && req.wf()),
    {
        if term.as_str().is_empty() {
            None
        } else {
            Some(SearchRequest { term })
        }
    }

    /// The request URL, as bytes.
    pub fn url(&self) -> (u: Vec<u8>)
        requires
            self.wf(),
        ensures
            u@ == search_url_spec(encode_utf8(self.term_view())),
    {
        search_url(self.term.as_str())
    }
}

} // verus!
