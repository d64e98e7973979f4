//! Fetch-count profiles: how often each expert was fetched, row-major, as a
//! JSON list. Written when a model is dropped, read to preload the RAM tier.

use crate::json::{blanks, json_document, json_text, parse_json, print_json, trees, Json, JsonTree};
use vstd::prelude::*;

verus! {

/// A list of counts as a document.
pub open spec fn profile_tree(counts: Seq<u64>) -> JsonTree {
    JsonTree::Array(Seq::new(counts.len(), |i: int| JsonTree::Uint(counts[i])))
}

/// Different counts are different documents.
proof fn lemma_profile_tree(a: Seq<u64>, b: Seq<u64>)
    requires
        profile_tree(a) == profile_tree(b),
    ensures
        a == b,
{
    let x = profile_tree(a)->Array_0;
    let y = profile_tree(b)->Array_0;
    assert(x.len() == y.len());
    assert forall|i: int| 0 <= i < a.len() implies a[i] == b[i] by {
        assert(x[i] == y[i]);
    }
    assert(a =~= b);
}

/// The counts of a profile; `None` where it is no list of unsigned numbers.
pub fn fetch_profile(raw: &[u8]) -> (counts: Option<Vec<u64>>)
    ensures
        match counts {
            Some(c) => json_document(raw@) == Some(profile_tree(c@)),
            None => forall|c: Seq<u64>| json_document(raw@) != Some(#[trigger] profile_tree(c)),
        },
{
    let json: Json = match parse_json(raw) {
        Some(json) => json,
        None => {
            return None;
        },
    };
    let items: &Vec<Json> = match json.as_array() {
        Some(items) => items,
        None => {
            return None;
        },
    };
    let ghost all = trees(items@);
    let mut counts: Vec<u64> = Vec::new();
    let mut i: usize = 0;
    while i < items.len()
        invariant
            i <= items@.len(),
            all == trees(items@),
            json_document(raw@) == Some(JsonTree::Array(all)),
            counts@.len() == i,
            forall|k: int| 0 <= k < i ==> #[trigger] all[k] == JsonTree::Uint(counts@[k]),
        decreases items@.len() - i,
    {
        assert(all[i as int] == items@[i as int]@);
        match items[i].as_u64() {
            Some(n) => counts.push(n),
            None => {
                assert forall|c: Seq<u64>| json_document(raw@) != Some(
                    #[trigger] profile_tree(c),
                ) by {
                    if json_document(raw@) == Some(profile_tree(c)) {
                        let want = Seq::new(c.len(), |k: int| JsonTree::Uint(c[k]));
                        assert(all == want);
                        assert(all[i as int] == want[i as int]);
                    }
                }
                return None;
            },
        }
        i += 1;
    }
    assert(all =~= profile_tree(counts@)->Array_0);
    Some(counts)
}

/// Writes a profile; reading it again gives the counts.
pub fn print_profile(counts: &[u64]) -> (raw: Vec<u8>)
    ensures
        raw@ == json_text(profile_tree(counts@)),
        json_document(raw@) == Some(profile_tree(counts@)),
{
    let mut items: Vec<Json> = Vec::new();
    let mut i: usize = 0;
    while i < counts.len()
        invariant
            i <= counts@.len(),
            items@.len() == i,
            forall|k: int| 0 <= k < i ==> (#[trigger] items@[k])@ == JsonTree::Uint(counts@[k]),
        decreases counts@.len() - i,
    {
        items.push(Json::Uint(counts[i]));
        i += 1;
    }
    assert(trees(items@) =~= profile_tree(counts@)->Array_0);
    let json = Json::Array(items);
    assert(json@ == profile_tree(counts@));
    assert(json@.plain(100)) by {
        let all = profile_tree(counts@)->Array_0;
        assert forall|k: int| #![trigger all[k]] 0 <= k < all.len() implies all[k].plain(99) by {}
    }
    let raw: Vec<u8> = print_json(&json);
    assert(raw@ + blanks(0) =~= raw@);
    raw
}

/// What a profile gives back is what was written: bytes that hold the document
/// of some counts hold those of no others.
pub proof fn law_profile_reads_back(written: Seq<u64>, raw: Seq<u8>, read: Seq<u64>)
    requires
        json_document(raw) == Some(profile_tree(written)),
        json_document(raw) == Some(profile_tree(read)),
    ensures
        read == written,
{
    lemma_profile_tree(read, written);
}

} // verus!
