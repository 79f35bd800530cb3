//! Word id reindexing: when an edit changes the word set, the ids are
//! rewritten to the contiguous `w0, w1, …` sequence; this computes the diff.

use vstd::prelude::*;

use crate::doc::{refs_view, Doc, WordView};
use crate::text::{decimal, push_decimal, push_str, str_eq};

verus! {

/// Original → new word ids, and removed ids.
#[derive(Debug)]
pub struct ReindexMap {
    pub mapping: Vec<(String, String)>,
    pub removed: Vec<String>,
}

/// The id of the `k`-th word after reindexing.
pub open spec fn word_id(k: nat) -> Seq<char> {
    "w"@ + decimal(k)
}

/// The renames of a word list: every word whose id differs from its
/// position's `wN`, in order.
pub open spec fn renames(ws: Seq<WordView>) -> Seq<(Seq<char>, Seq<char>)>
    decreases ws.len(),
{
    if ws.len() == 0 {
        Seq::empty()
    } else {
        let prev = renames(ws.drop_last());
        let k = (ws.len() - 1) as nat;
        if ws.last().id != word_id(k) {
            prev.push((ws.last().id, word_id(k)))
        } else {
            prev
        }
    }
}

pub open spec fn pairs_view(s: Seq<(String, String)>) -> Seq<(Seq<char>, Seq<char>)> {
    Seq::new(s.len(), |i: int| (s[i].0@, s[i].1@))
}

/// The renames that make the word ids `w0, w1, … wN` in source order. The
/// document is not changed and no id is reported removed.
pub fn reindex_words(doc: &Doc) -> (r: ReindexMap)
    ensures
        pairs_view(r.mapping@) == renames(doc.words_v()),
        r.removed@.len() == 0,
{
    let words = doc.all_words();
    let ghost ws = refs_view(words@);
    let mut mapping: Vec<(String, String)> = Vec::new();
    let mut k: usize = 0;
    while k < words.len()
        invariant
            ws == refs_view(words@),
            ws == doc.words_v(),
            0 <= k <= words@.len(),
            pairs_view(mapping@) == renames(ws.subrange(0, k as int)),
        decreases words@.len() - k,
    {
        let mut new_id = String::new();
        push_str(&mut new_id, "w");
        push_decimal(&mut new_id, k as u64);
        let w = words[k];
        assert(ws.subrange(0, k + 1).drop_last() =~= ws.subrange(0, k as int));
        assert(ws.subrange(0, k + 1).last() == w@);
        if !str_eq(w.id.as_str(), new_id.as_str()) {
            let ghost prev = mapping@;
            let pair = (w.id.clone(), new_id);
            mapping.push(pair);
            assert(pairs_view(mapping@) =~= pairs_view(prev).push((pair.0@, pair.1@)));
        }
        k = k + 1;
    }
    assert(ws.subrange(0, k as int) =~= ws);
    ReindexMap { mapping, removed: Vec::new() }
}

/// Reindexing words whose ids already read `w0, w1, …` in order renames
/// nothing; otherwise every rename gives its word the id of its position.
pub proof fn law_reindex_stable(ws: Seq<WordView>)
    ensures
        (forall|k: int| 0 <= k < ws.len() ==> #[trigger] ws[k].id == word_id(k as nat)) ==> renames(
            ws,
        ).len() == 0,
        forall|i: int|
            0 <= i < renames(ws).len() ==> exists|k: int|
                0 <= k < ws.len() && #[trigger] renames(ws)[i] == (ws[k].id, word_id(k as nat)) && ws[k].id
                    != word_id(k as nat),
    decreases ws.len(),
{
    if ws.len() > 0 {
        let pre = ws.drop_last();
        law_reindex_stable(pre);
        if forall|k: int| 0 <= k < ws.len() ==> #[trigger] ws[k].id == word_id(k as nat) {
            assert forall|k: int| 0 <= k < pre.len() implies #[trigger] pre[k].id == word_id(k as nat) by {
                assert(pre[k] == ws[k]);
            }
            assert(ws[ws.len() - 1].id == word_id((ws.len() - 1) as nat));
        }
        let r = renames(ws);
        let rp = renames(pre);
        assert forall|i: int| 0 <= i < r.len() implies exists|k: int|
            0 <= k < ws.len() && #[trigger] r[i] == (ws[k].id, word_id(k as nat)) && ws[k].id != word_id(
                k as nat,
            ) by {
            if i < rp.len() {
                assert(r[i] == rp[i]);
                let k = choose|k: int|
                    0 <= k < pre.len() && #[trigger] rp[i] == (pre[k].id, word_id(k as nat)) && pre[k].id
                        != word_id(k as nat);
                assert(pre[k] == ws[k]);
            } else {
                let k = ws.len() - 1;
                assert(r[i] == (ws[k].id, word_id(k as nat)));
            }
        }
    }
}

} // verus!
