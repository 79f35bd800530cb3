//! Speaker listing, renaming, merging and assignment.
//!
//! Speakers live on `paragraph.speaker`; `rename` and `merge` rewrite that
//! field across the document.

use vstd::prelude::*;

use crate::doc::{
    clone_opt_string, opt_str_view, sentence_words, sentences_view,
    lemma_sentence_words_push, Doc, Paragraph, ParagraphView, SentenceView,
};
use crate::edit::{find_para, find_sentence, find_sentence_index};
use crate::text::{
    join_with, lemma_join_with_push, lemma_seq_lt_irreflexive, lemma_seq_lt_total,
    lemma_seq_lt_trans, owned, push_str, seq_lt, str_eq, str_lt, trim, trimmed,
};

verus! {

/// One speaker and the number of paragraphs it owns.
#[derive(Debug)]
pub struct SpeakerInfo {
    pub id: String,
    pub paragraph_count: usize,
}

/// How many paragraphs carry speaker `id`.
pub open spec fn speaker_count(ps: Seq<ParagraphView>, id: Seq<char>) -> nat
    decreases ps.len(),
{
    if ps.len() == 0 {
        0
    } else {
        speaker_count(ps.drop_last(), id) + if ps.last().speaker == Some(id) {
            1nat
        } else {
            0nat
        }
    }
}

pub proof fn lemma_speaker_count_bound(ps: Seq<ParagraphView>, id: Seq<char>)
    ensures
        speaker_count(ps, id) <= ps.len(),
        speaker_count(ps, id) > 0 ==> exists|k: int| 0 <= k < ps.len() && ps[k].speaker == Some(id),
    decreases ps.len(),
{
    if ps.len() > 0 {
        lemma_speaker_count_bound(ps.drop_last(), id);
        if speaker_count(ps.drop_last(), id) > 0 {
            let k = choose|k: int| 0 <= k < ps.len() - 1 && ps.drop_last()[k].speaker == Some(id);
            assert(ps[k].speaker == Some(id));
        } else if ps.last().speaker == Some(id) {
            assert(ps[ps.len() - 1].speaker == Some(id));
        }
    }
}

/// The speaker list of a document: every speaker once, in sorted order,
/// with the number of paragraphs it owns.
pub open spec fn is_speaker_list(ps: Seq<ParagraphView>, r: Seq<SpeakerInfo>) -> bool {
    &&& forall|i: int, j: int| 0 <= i < j < r.len() ==> seq_lt(#[trigger] r[i].id@, #[trigger] r[j].id@)
    &&& forall|i: int|
        0 <= i < r.len() ==> #[trigger] r[i].paragraph_count == speaker_count(ps, r[i].id@)
            && r[i].paragraph_count > 0
    &&& forall|k: int|
        0 <= k < ps.len() && #[trigger] ps[k].speaker is Some ==> exists|i: int|
            0 <= i < r.len() && r[i].id@ == ps[k].speaker->0
}

/// Distinct speakers with the number of paragraphs each owns, sorted by id.
pub fn list(doc: &Doc) -> (r: Vec<SpeakerInfo>)
    ensures
        is_speaker_list(doc.paragraphs_v(), r@),
{
    let ghost ps = doc.paragraphs_v();
    let mut out: Vec<SpeakerInfo> = Vec::new();
    let mut p: usize = 0;
    while p < doc.paragraphs.len()
        invariant
            ps == doc.paragraphs_v(),
            0 <= p <= ps.len(),
            is_speaker_list(ps.subrange(0, p as int), out@),
        decreases ps.len() - p,
    {
        let ghost pre = ps.subrange(0, p as int);
        let ghost post = ps.subrange(0, p + 1);
        assert(post.drop_last() =~= pre);
        assert(post.last() == ps[p as int]);
        assert(ps[p as int] == doc.paragraphs@[p as int]@);
        match &doc.paragraphs[p].speaker {
            None => {
                assert forall|i: int| 0 <= i < out@.len() implies #[trigger] out@[i].paragraph_count
                    == speaker_count(post, out@[i].id@) && out@[i].paragraph_count > 0 by {}
                assert forall|k: int|
                    0 <= k < post.len() && #[trigger] post[k].speaker is Some implies exists|i: int|
                        0 <= i < out@.len() && out@[i].id@ == post[k].speaker->0 by {
                    assert(post[k] == pre[k]);
                }
            },
            Some(s) => {
                let ghost sv = s@;
                assert(ps[p as int].speaker == Some(sv));
                let mut i: usize = 0;
                while i < out.len() && str_lt(out[i].id.as_str(), s.as_str())
                    invariant
                        0 <= i <= out@.len(),
                        sv == s@,
                        forall|j: int| 0 <= j < i ==> seq_lt(#[trigger] out@[j].id@, sv),
                    decreases out@.len() - i,
                {
                    i = i + 1;
                }
                proof {
                    lemma_speaker_count_bound(pre, sv);
                }
                if i < out.len() && str_eq(out[i].id.as_str(), s.as_str()) {
                    let ghost before = out@;
                    let old_info = out.remove(i);
                    proof {
                        lemma_speaker_count_bound(pre, old_info.id@);
                    }
                    let info = SpeakerInfo {
                        id: old_info.id,
                        paragraph_count: old_info.paragraph_count + 1,
                    };
                    out.insert(i, info);
                    proof {
                        assert(out@ =~= before.update(i as int, info));
                        assert forall|a: int, b: int| 0 <= a < b < out@.len() implies seq_lt(
                            #[trigger] out@[a].id@,
                            #[trigger] out@[b].id@,
                        ) by {
                            assert(out@[a].id@ == before[a].id@);
                            assert(out@[b].id@ == before[b].id@);
                        }
                        assert forall|j: int| 0 <= j < out@.len() implies #[trigger] out@[j].paragraph_count
                            == speaker_count(post, out@[j].id@) && out@[j].paragraph_count > 0 by {
                            if j != i {
                                assert(out@[j] == before[j]);
                                lemma_seq_lt_irreflexive(sv);
                                if j < i {
                                    assert(seq_lt(before[j].id@, sv));
                                } else {
                                    assert(seq_lt(before[i as int].id@, before[j].id@));
                                }
                            }
                        }
                        assert forall|k: int|
                            0 <= k < post.len() && #[trigger] post[k].speaker is Some implies exists|
                                j: int,
                            | 0 <= j < out@.len() && out@[j].id@ == post[k].speaker->0 by {
                            if k < p {
                                assert(post[k] == pre[k]);
                                assert(pre[k].speaker is Some);
                                let j0 = choose|j0: int|
                                    0 <= j0 < before.len() && before[j0].id@ == pre[k].speaker->0;
                                assert(out@[j0].id@ == before[j0].id@);
                            } else {
                                assert(out@[i as int].id@ == sv);
                            }
                        }
                    }
                } else {
                    let ghost before = out@;
                    let info = SpeakerInfo { id: s.clone(), paragraph_count: 1 };
                    proof {
                        assert forall|j: int| i <= j < before.len() implies seq_lt(
                            sv,
                            #[trigger] before[j].id@,
                        ) by {
                            lemma_seq_lt_total(before[i as int].id@, sv);
                            if j > i {
                                lemma_seq_lt_trans(sv, before[i as int].id@, before[j].id@);
                            }
                        }
                        assert forall|j: int| 0 <= j < before.len() implies #[trigger] before[j].id@
                            != sv by {
                            lemma_seq_lt_irreflexive(sv);
                            if j < i {
                                assert(seq_lt(before[j].id@, sv));
                            } else {
                                assert(seq_lt(sv, before[j].id@));
                            }
                        }
                        if speaker_count(pre, sv) > 0 {
                            let k = choose|k: int| 0 <= k < pre.len() && pre[k].speaker == Some(sv);
                            assert(pre[k].speaker is Some);
                            assert(false);
                        }
                    }
                    out.insert(i, info);
                    proof {
                        assert(out@ == before.insert(i as int, info));
                        assert forall|a: int, b: int| 0 <= a < b < out@.len() implies seq_lt(
                            #[trigger] out@[a].id@,
                            #[trigger] out@[b].id@,
                        ) by {
                            if b < i {
                                assert(seq_lt(before[a].id@, before[b].id@));
                            } else if a < i && b == i {
                            } else if a < i && b > i {
                                assert(seq_lt(before[a].id@, before[b - 1].id@));
                            } else if a == i {
                                assert(seq_lt(sv, before[b - 1].id@));
                            } else {
                                assert(seq_lt(before[a - 1].id@, before[b - 1].id@));
                            }
                        }
                        assert forall|j: int| 0 <= j < out@.len() implies #[trigger] out@[j].paragraph_count
                            == speaker_count(post, out@[j].id@) && out@[j].paragraph_count > 0 by {
                            if j < i {
                                assert(out@[j] == before[j]);
                            } else if j > i {
                                assert(out@[j] == before[j - 1]);
                            }
                        }
                        assert forall|k: int|
                            0 <= k < post.len() && #[trigger] post[k].speaker is Some implies exists|
                                j: int,
                            | 0 <= j < out@.len() && out@[j].id@ == post[k].speaker->0 by {
                            if k < p {
                                assert(post[k] == pre[k]);
                                assert(pre[k].speaker is Some);
                                let j0 = choose|j0: int|
                                    0 <= j0 < before.len() && before[j0].id@ == pre[k].speaker->0;
                                if j0 < i {
                                    assert(out@[j0] == before[j0]);
                                } else {
                                    assert(out@[j0 + 1] == before[j0]);
                                }
                            } else {
                                assert(out@[i as int].id@ == sv);
                            }
                        }
                    }
                }
            },
        }
        p = p + 1;
    }
    assert(ps.subrange(0, p as int) =~= ps);
    out
}

/// The label a user-supplied speaker name stands for: trimmed, and none
/// when nothing is left.
pub open spec fn label_spec(o: Option<Seq<char>>) -> Option<Seq<char>> {
    match o {
        Some(s) => if trimmed(s).len() == 0 {
            None
        } else {
            Some(trimmed(s))
        },
        None => None,
    }
}

pub open spec fn opt_ref_view(o: Option<&str>) -> Option<Seq<char>> {
    match o {
        Some(s) => Some(s@),
        None => None,
    }
}

/// Trims a speaker label; a blank label clears the speaker.
pub fn normalize_label(speaker: Option<&str>) -> (r: Option<String>)
    ensures
        opt_str_view(r) == label_spec(opt_ref_view(speaker)),
{
    match speaker {
        None => None,
        Some(s) => {
            let t = trim(s);
            if t.unicode_len() == 0 {
                None
            } else {
                Some(owned(t))
            }
        },
    }
}

/// Everything of a document but its paragraphs is the same in `a` and `b`.
pub open spec fn same_but_paragraphs(a: Doc, b: Doc) -> bool {
    &&& a.id == b.id
    &&& a.schema == b.schema
    &&& a.media == b.media
    &&& a.meta == b.meta
    &&& a.translations == b.translations
}

/// `p` with its speaker replaced.
pub open spec fn with_speaker(p: ParagraphView, speaker: Option<Seq<char>>) -> ParagraphView {
    ParagraphView { id: p.id, speaker: speaker, sentences: p.sentences }
}

/// Index of the first paragraph at or after `k` with id `id`, or -1.
pub open spec fn find_para_id(ps: Seq<ParagraphView>, id: u32, k: int) -> int
    decreases ps.len() - k,
{
    if k < 0 || k >= ps.len() {
        -1
    } else if ps[k].id == id {
        k
    } else {
        find_para_id(ps, id, k + 1)
    }
}

pub proof fn lemma_find_para_id(ps: Seq<ParagraphView>, id: u32, k: int)
    requires
        0 <= k,
    ensures
        find_para_id(ps, id, k) == -1 || (k <= find_para_id(ps, id, k) < ps.len()
            && ps[find_para_id(ps, id, k)].id == id),
        find_para_id(ps, id, k) == -1 ==> forall|j: int| k <= j < ps.len() ==> ps[j].id != id,
    decreases ps.len() - k,
{
    if k < ps.len() && ps[k].id != id {
        lemma_find_para_id(ps, id, k + 1);
    }
}

pub proof fn lemma_find_para(ps: Seq<ParagraphView>, id: Seq<char>, p: int)
    requires
        0 <= p,
    ensures
        find_para(ps, id, p) == -1 || (p <= find_para(ps, id, p) < ps.len() && find_sentence(
            ps[find_para(ps, id, p)].sentences,
            id,
            0,
        ) >= 0),
    decreases ps.len() - p,
{
    if p < ps.len() && find_sentence(ps[p].sentences, id, 0) < 0 {
        lemma_find_para(ps, id, p + 1);
    }
}

/// Assigns or clears the speaker of paragraph `paragraph_id` (the first with
/// that id). Returns false, changing nothing, for an unknown id.
pub fn assign(doc: &mut Doc, paragraph_id: u32, speaker: Option<&str>) -> (r: bool)
    ensures
        same_but_paragraphs(*final(doc), *old(doc)),
        ({
            let ps = old(doc).paragraphs_v();
            let k = find_para_id(ps, paragraph_id, 0);
            &&& r == (k != -1)
            &&& k == -1 ==> final(doc).paragraphs_v() == ps
            &&& k != -1 ==> final(doc).paragraphs_v() == ps.update(
                k,
                with_speaker(ps[k], label_spec(opt_ref_view(speaker))),
            )
        }),
{
    let ghost ps = doc.paragraphs_v();
    proof {
        lemma_find_para_id(ps, paragraph_id, 0);
    }
    let mut p: usize = 0;
    while p < doc.paragraphs.len()
        invariant
            *doc == *old(doc),
            ps == old(doc).paragraphs_v(),
            0 <= p <= ps.len(),
            find_para_id(ps, paragraph_id, p as int) == find_para_id(ps, paragraph_id, 0),
        decreases ps.len() - p,
    {
        assert(ps[p as int] == doc.paragraphs@[p as int]@);
        if doc.paragraphs[p].id == paragraph_id {
            let label = normalize_label(speaker);
            let para = &mut doc.paragraphs[p];
            para.speaker = label;
            assert(doc.paragraphs_v() =~= ps.update(
                p as int,
                with_speaker(ps[p as int], label_spec(opt_ref_view(speaker))),
            ));
            return true;
        }
        p = p + 1;
    }
    false
}

/// Assigns or clears the speaker of the paragraph that owns sentence
/// `cue_id`. Returns false, changing nothing, when no paragraph does.
pub fn assign_by_cue(doc: &mut Doc, cue_id: &str, speaker: Option<&str>) -> (r: bool)
    ensures
        same_but_paragraphs(*final(doc), *old(doc)),
        ({
            let ps = old(doc).paragraphs_v();
            let k = find_para(ps, cue_id@, 0);
            &&& r == (k != -1)
            &&& k == -1 ==> final(doc).paragraphs_v() == ps
            &&& k != -1 ==> final(doc).paragraphs_v() == ps.update(
                k,
                with_speaker(ps[k], label_spec(opt_ref_view(speaker))),
            )
        }),
{
    let label = normalize_label(speaker);
    let ghost ps = doc.paragraphs_v();
    proof {
        lemma_find_para(ps, cue_id@, 0);
    }
    let mut p: usize = 0;
    while p < doc.paragraphs.len()
        invariant
            *doc == *old(doc),
            ps == old(doc).paragraphs_v(),
            opt_str_view(label) == label_spec(opt_ref_view(speaker)),
            0 <= p <= ps.len(),
            find_para(ps, cue_id@, p as int) == find_para(ps, cue_id@, 0),
        decreases ps.len() - p,
    {
        assert(ps[p as int].sentences == sentences_view(doc.paragraphs@[p as int].sentences@));
        if find_sentence_index(&doc.paragraphs[p].sentences, cue_id).is_some() {
            let para = &mut doc.paragraphs[p];
            para.speaker = label;
            assert(doc.paragraphs_v() =~= ps.update(
                p as int,
                with_speaker(ps[p as int], label_spec(opt_ref_view(speaker))),
            ));
            return true;
        }
        p = p + 1;
    }
    false
}

/// The paragraphs after renaming speaker `from` to `to`.
pub open spec fn renamed(ps: Seq<ParagraphView>, from: Seq<char>, to: Seq<char>) -> Seq<ParagraphView> {
    Seq::new(
        ps.len(),
        |k: int|
            if ps[k].speaker == Some(from) {
                with_speaker(ps[k], Some(to))
            } else {
                ps[k]
            },
    )
}

/// Renames every paragraph whose speaker is `from` to `to`. Returns the
/// number of paragraphs touched.
pub fn rename(doc: &mut Doc, from: &str, to: &str) -> (r: usize)
    ensures
        same_but_paragraphs(*final(doc), *old(doc)),
        final(doc).paragraphs_v() == renamed(old(doc).paragraphs_v(), from@, to@),
        r == speaker_count(old(doc).paragraphs_v(), from@),
{
    let ghost ps = doc.paragraphs_v();
    let mut n: usize = 0;
    let mut p: usize = 0;
    while p < doc.paragraphs.len()
        invariant
            same_but_paragraphs(*doc, *old(doc)),
            ps == old(doc).paragraphs_v(),
            doc.paragraphs@.len() == ps.len(),
            0 <= p <= ps.len(),
            n == speaker_count(ps.subrange(0, p as int), from@),
            forall|k: int| 0 <= k < p ==> #[trigger] doc.paragraphs_v()[k] == renamed(ps, from@, to@)[k],
            forall|k: int| p <= k < ps.len() ==> #[trigger] doc.paragraphs_v()[k] == ps[k],
        decreases ps.len() - p,
    {
        let ghost before = doc.paragraphs_v();
        assert(before[p as int] == doc.paragraphs@[p as int]@);
        proof {
            assert(ps.subrange(0, p + 1).drop_last() =~= ps.subrange(0, p as int));
            lemma_speaker_count_bound(ps.subrange(0, p as int), from@);
        }
        let hit = match &doc.paragraphs[p].speaker {
            Some(s) => str_eq(s.as_str(), from),
            None => false,
        };
        if hit {
            let para = &mut doc.paragraphs[p];
            para.speaker = Some(owned(to));
            n = n + 1;
            assert(doc.paragraphs_v() =~= before.update(p as int, with_speaker(before[p as int], Some(to@))));
        }
        p = p + 1;
    }
    assert(ps.subrange(0, p as int) =~= ps);
    assert(doc.paragraphs_v() =~= renamed(ps, from@, to@));
    n
}

/// Merges speaker `from` into `into`: the same as renaming it.
pub fn merge(doc: &mut Doc, from: &str, into: &str) -> (r: usize)
    ensures
        same_but_paragraphs(*final(doc), *old(doc)),
        final(doc).paragraphs_v() == renamed(old(doc).paragraphs_v(), from@, into@),
        r == speaker_count(old(doc).paragraphs_v(), from@),
{
    rename(doc, from, into)
}

/// A paragraph as a reviewable speaker turn. `start` and `end` are the bits
/// of the first word's start and the last word's end.
#[derive(Debug)]
pub struct SpeakerTurn {
    pub paragraph_id: u32,
    pub speaker: Option<String>,
    pub start: u64,
    pub end: u64,
    pub text: String,
    pub cue_ids: Vec<String>,
}

pub struct SpeakerTurnView {
    pub paragraph_id: u32,
    pub speaker: Option<Seq<char>>,
    pub start: u64,
    pub end: u64,
    pub text: Seq<char>,
    pub cue_ids: Seq<Seq<char>>,
}

impl View for SpeakerTurn {
    type V = SpeakerTurnView;

    open spec fn view(&self) -> SpeakerTurnView {
        SpeakerTurnView {
            paragraph_id: self.paragraph_id,
            speaker: opt_str_view(self.speaker),
            start: self.start,
            end: self.end,
            text: self.text@,
            cue_ids: crate::doc::strings_view(self.cue_ids@),
        }
    }
}

pub open spec fn sentence_texts(ss: Seq<SentenceView>) -> Seq<Seq<char>> {
    Seq::new(ss.len(), |i: int| ss[i].text)
}

pub open spec fn sentence_id_list(ss: Seq<SentenceView>) -> Seq<Seq<char>> {
    Seq::new(ss.len(), |i: int| ss[i].id)
}

/// The turn of a paragraph that has timed words.
pub open spec fn turn_of(p: ParagraphView) -> SpeakerTurnView {
    let ws = sentence_words(p.sentences);
    SpeakerTurnView {
        paragraph_id: p.id,
        speaker: p.speaker,
        start: ws[0].start,
        end: ws.last().end,
        text: join_with(sentence_texts(p.sentences), seq![' ']),
        cue_ids: sentence_id_list(p.sentences),
    }
}

/// One turn per paragraph with timed words, in order.
pub open spec fn turns_spec(ps: Seq<ParagraphView>) -> Seq<SpeakerTurnView>
    decreases ps.len(),
{
    if ps.len() == 0 {
        Seq::empty()
    } else if sentence_words(ps.last().sentences).len() == 0 {
        turns_spec(ps.drop_last())
    } else {
        turns_spec(ps.drop_last()).push(turn_of(ps.last()))
    }
}

/// The start of a paragraph's first word and the end of its last, or none
/// when it has no words.
pub fn paragraph_bounds(para: &Paragraph) -> (r: Option<(u64, u64)>)
    ensures
        ({
            let ws = sentence_words(para@.sentences);
            match r {
                None => ws.len() == 0,
                Some((a, b)) => ws.len() > 0 && a == ws[0].start && b == ws.last().end,
            }
        }),
{
    let ghost sv = sentences_view(para.sentences@);
    let mut first: Option<u64> = None;
    let mut last: u64 = 0;
    let mut s: usize = 0;
    while s < para.sentences.len()
        invariant
            sv == sentences_view(para.sentences@),
            0 <= s <= sv.len(),
            ({
                let ws = sentence_words(sv.subrange(0, s as int));
                match first {
                    None => ws.len() == 0,
                    Some(a) => ws.len() > 0 && a == ws[0].start && last == ws.last().end,
                }
            }),
        decreases sv.len() - s,
    {
        let ghost pre = sv.subrange(0, s as int);
        proof {
            assert(sv.subrange(0, s + 1) =~= pre.push(sv[s as int]));
            lemma_sentence_words_push(pre, sv[s as int]);
        }
        let words = &para.sentences[s].words;
        assert(sv[s as int].words == crate::doc::words_view(words@));
        let n = words.len();
        if n > 0 {
            if first.is_none() {
                first = Some(words[0].start);
            }
            last = words[n - 1].end;
        }
        s = s + 1;
    }
    assert(sv.subrange(0, s as int) =~= sv);
    match first {
        None => None,
        Some(a) => Some((a, last)),
    }
}

/// A stored speaker proposal is malformed when its proposed name is blank,
/// its time span is not a finite, non-empty interval (`span_ok` false), or
/// its paragraph was already proposed for.
pub fn proposal_invalid(proposed: &str, paragraph_id: u32, seen: &Vec<u32>, span_ok: bool) -> (r: bool)
    ensures
        r == (trimmed(proposed@).len() == 0 || !span_ok || seen@.contains(paragraph_id)),
{
    if crate::text::blank(proposed) || !span_ok {
        return true;
    }
    let mut i: usize = 0;
    while i < seen.len()
        invariant
            0 <= i <= seen@.len(),
            forall|k: int| 0 <= k < i ==> seen@[k] != paragraph_id,
        decreases seen@.len() - i,
    {
        if seen[i] == paragraph_id {
            assert(seen@[i as int] == paragraph_id);
            return true;
        }
        i = i + 1;
    }
    false
}

/// A proposal that keeps the speaker a paragraph already has.
pub fn proposal_unchanged(current: Option<&str>, proposed: &str) -> (r: bool)
    ensures
        r == (current matches Some(c) && c@ == proposed@),
{
    match current {
        Some(c) => str_eq(c, proposed),
        None => false,
    }
}

/// A proposal no longer describes its paragraph when the paragraph's
/// speaker or text changed since, or its word times moved (`times_match`
/// false).
pub fn proposal_stale(para: &Paragraph, current: Option<&str>, text: &str, times_match: bool) -> (r: bool)
    ensures
        r == (para@.speaker != opt_ref_view(current) || !times_match || join_with(
            sentence_texts(para@.sentences),
            seq![' '],
        ) != text@),
{
    let speaker_same = match (&para.speaker, current) {
        (Some(a), Some(b)) => str_eq(a.as_str(), b),
        (None, None) => true,
        _ => false,
    };
    if !speaker_same || !times_match {
        return true;
    }
    let joined = paragraph_text(para);
    !str_eq(joined.as_str(), text)
}

/// The texts of a paragraph's sentences joined with single spaces.
fn paragraph_text(para: &Paragraph) -> (r: String)
    ensures
        r@ == join_with(sentence_texts(para@.sentences), seq![' ']),
{
    let ghost sv = sentences_view(para.sentences@);
    let mut out = String::new();
    let mut s: usize = 0;
    while s < para.sentences.len()
        invariant
            sv == sentences_view(para.sentences@),
            0 <= s <= sv.len(),
            out@ == join_with(sentence_texts(sv).subrange(0, s as int), seq![' ']),
        decreases sv.len() - s,
    {
        let ghost t = sentence_texts(sv);
        proof {
            assert(t.subrange(0, s + 1) =~= t.subrange(0, s as int).push(t[s as int]));
            lemma_join_with_push(t.subrange(0, s as int), seq![' '], t[s as int]);
        }
        if s > 0 {
            push_str(&mut out, " ");
            proof {
                reveal_strlit(" ");
            }
        }
        push_str(&mut out, para.sentences[s].text.as_str());
        s = s + 1;
    }
    assert(sentence_texts(sv).subrange(0, s as int) =~= sentence_texts(sv));
    out
}

/// The ids of a paragraph's sentences.
fn paragraph_cue_ids(para: &Paragraph) -> (r: Vec<String>)
    ensures
        crate::doc::strings_view(r@) == sentence_id_list(para@.sentences),
{
    let ghost sv = sentences_view(para.sentences@);
    let mut out: Vec<String> = Vec::new();
    let mut s: usize = 0;
    while s < para.sentences.len()
        invariant
            sv == sentences_view(para.sentences@),
            0 <= s <= sv.len(),
            crate::doc::strings_view(out@) == sentence_id_list(sv).subrange(0, s as int),
        decreases sv.len() - s,
    {
        let ghost before = out@;
        let c = para.sentences[s].id.clone();
        assert(sv[s as int].id == c@);
        out.push(c);
        assert(out@ == before.push(c));
        assert(crate::doc::strings_view(out@) =~= crate::doc::strings_view(before).push(c@));
        assert(sentence_id_list(sv).subrange(0, s + 1) =~= sentence_id_list(sv).subrange(
            0,
            s as int,
        ).push(c@));
        s = s + 1;
        assert(crate::doc::strings_view(out@) =~= sentence_id_list(sv).subrange(0, s as int));
    }
    assert(sentence_id_list(sv).subrange(0, s as int) =~= sentence_id_list(sv));
    out
}

pub open spec fn turns_view(r: Seq<SpeakerTurn>) -> Seq<SpeakerTurnView> {
    Seq::new(r.len(), |i: int| r[i]@)
}

/// One inspectable turn per paragraph with timed words: its speaker, media
/// range, text and cue ids.
pub fn turns(doc: &Doc) -> (r: Vec<SpeakerTurn>)
    ensures
        turns_view(r@) == turns_spec(doc.paragraphs_v()),
{
    let ghost ps = doc.paragraphs_v();
    let mut out: Vec<SpeakerTurn> = Vec::new();
    let mut p: usize = 0;
    while p < doc.paragraphs.len()
        invariant
            ps == doc.paragraphs_v(),
            0 <= p <= ps.len(),
            turns_view(out@) == turns_spec(ps.subrange(0, p as int)),
        decreases ps.len() - p,
    {
        let para = &doc.paragraphs[p];
        assert(ps[p as int] == para@);
        assert(ps.subrange(0, p + 1).drop_last() =~= ps.subrange(0, p as int));
        match paragraph_bounds(para) {
            None => {},
            Some((start, end)) => {
                let t = SpeakerTurn {
                    paragraph_id: para.id,
                    speaker: clone_opt_string(&para.speaker),
                    start,
                    end,
                    text: paragraph_text(para),
                    cue_ids: paragraph_cue_ids(para),
                };
                let ghost before = out@;
                out.push(t);
                assert(turns_view(out@) =~= turns_view(before).push(t@));
            },
        }
        p = p + 1;
    }
    assert(ps.subrange(0, p as int) =~= ps);
    out
}

/// Merging speaker `from` into a different speaker `into` leaves no
/// paragraph with `from`, and `into` then owns the paragraphs of both.
pub proof fn law_merge_combines_counts(ps: Seq<ParagraphView>, from: Seq<char>, into: Seq<char>)
    requires
        from != into,
    ensures
        speaker_count(renamed(ps, from, into), from) == 0,
        speaker_count(renamed(ps, from, into), into) == speaker_count(ps, into) + speaker_count(
            ps,
            from,
        ),
    decreases ps.len(),
{
    if ps.len() > 0 {
        assert(renamed(ps, from, into).drop_last() =~= renamed(ps.drop_last(), from, into));
        law_merge_combines_counts(ps.drop_last(), from, into);
    }
}


/// Whether some pair of `names` has cluster `c` or name `n`.
pub open spec fn taken(names: Seq<(Seq<char>, Seq<char>)>, c: Seq<char>, n: Seq<char>) -> bool {
    exists|i: int| 0 <= i < names.len() && (#[trigger] names[i]).0 == c || 0 <= i < names.len() && names[i].1 == n
}

/// The names given to fresh clusters: going down the ranked (cluster,
/// current name) pairs, a pair is taken when neither its cluster nor its
/// name was taken before, so each cluster gets at most one name and each
/// name at most one cluster.
pub open spec fn cluster_names_spec(ranked: Seq<(Seq<char>, Seq<char>)>) -> Seq<(Seq<char>, Seq<char>)>
    decreases ranked.len(),
{
    if ranked.len() == 0 {
        Seq::empty()
    } else {
        let pre = cluster_names_spec(ranked.drop_last());
        if taken(pre, ranked.last().0, ranked.last().1) {
            pre
        } else {
            pre.push(ranked.last())
        }
    }
}

pub open spec fn pairs_view(v: Seq<(String, String)>) -> Seq<(Seq<char>, Seq<char>)> {
    Seq::new(v.len(), |i: int| (v[i].0@, v[i].1@))
}

fn is_taken(names: &Vec<(String, String)>, c: &str, n: &str) -> (r: bool)
    ensures
        r == taken(pairs_view(names@), c@, n@),
{
    let ghost pv = pairs_view(names@);
    let mut i: usize = 0;
    while i < names.len()
        invariant
            pv == pairs_view(names@),
            0 <= i <= names@.len(),
            forall|k: int| 0 <= k < i ==> !((#[trigger] pv[k]).0 == c@ || pv[k].1 == n@),
        decreases names@.len() - i,
    {
        assert(pv[i as int] == (names@[i as int].0@, names@[i as int].1@));
        if str_eq(names[i].0.as_str(), c) || str_eq(names[i].1.as_str(), n) {
            return true;
        }
        i = i + 1;
    }
    false
}

/// Names fresh diarization clusters after the current speakers, one to one,
/// from (cluster, current name) pairs ranked best first.
pub fn cluster_names(ranked: &Vec<(String, String)>) -> (r: Vec<(String, String)>)
    ensures
        pairs_view(r@) == cluster_names_spec(pairs_view(ranked@)),
{
    let ghost rv = pairs_view(ranked@);
    let mut out: Vec<(String, String)> = Vec::new();
    assert(pairs_view(out@) =~= Seq::<(Seq<char>, Seq<char>)>::empty());
    let mut i: usize = 0;
    while i < ranked.len()
        invariant
            rv == pairs_view(ranked@),
            0 <= i <= ranked@.len(),
            pairs_view(out@) == cluster_names_spec(rv.subrange(0, i as int)),
        decreases ranked@.len() - i,
    {
        let ghost pre = rv.subrange(0, i + 1);
        assert(pre.drop_last() =~= rv.subrange(0, i as int));
        assert(pre.last() == rv[i as int]);
        let c = &ranked[i].0;
        let n = &ranked[i].1;
        if !is_taken(&out, c.as_str(), n.as_str()) {
            let ghost before = out@;
            out.push((c.clone(), n.clone()));
            assert(pairs_view(out@) =~= pairs_view(before).push(rv[i as int]));
        }
        i = i + 1;
    }
    assert(rv.subrange(0, i as int) =~= rv);
    out
}

/// The name proposed for a cluster: the name it was given, or the cluster
/// itself when it got none.
pub open spec fn proposed_name_spec(names: Seq<(Seq<char>, Seq<char>)>, cluster: Seq<char>) -> Seq<char>
    decreases names.len(),
{
    if names.len() == 0 {
        cluster
    } else if names[0].0 == cluster {
        names[0].1
    } else {
        proposed_name_spec(names.subrange(1, names.len() as int), cluster)
    }
}

pub fn proposed_name(names: &Vec<(String, String)>, cluster: &str) -> (r: String)
    ensures
        r@ == proposed_name_spec(pairs_view(names@), cluster@),
{
    let ghost pv = pairs_view(names@);
    let mut i: usize = 0;
    assert(pv.subrange(0, pv.len() as int) =~= pv);
    while i < names.len()
        invariant
            pv == pairs_view(names@),
            0 <= i <= pv.len(),
            proposed_name_spec(pv, cluster@) == proposed_name_spec(pv.subrange(i as int, pv.len() as int), cluster@),
        decreases pv.len() - i,
    {
        proof {
            let rest = pv.subrange(i as int, pv.len() as int);
            assert(rest[0] == pv[i as int]);
            assert(rest.subrange(1, rest.len() as int) =~= pv.subrange(i + 1, pv.len() as int));
        }
        if str_eq(names[i].0.as_str(), cluster) {
            return names[i].1.clone();
        }
        i = i + 1;
    }
    owned(cluster)
}

/// Each cluster gets at most one name and each name goes to at most one
/// cluster.
pub proof fn law_cluster_names_one_to_one(ranked: Seq<(Seq<char>, Seq<char>)>)
    ensures
        forall|i: int, j: int|
            0 <= i < j < cluster_names_spec(ranked).len() ==> (#[trigger] cluster_names_spec(ranked)[i]).0
                != (#[trigger] cluster_names_spec(ranked)[j]).0 && cluster_names_spec(ranked)[i].1
                != cluster_names_spec(ranked)[j].1,
    decreases ranked.len(),
{
    if ranked.len() > 0 {
        law_cluster_names_one_to_one(ranked.drop_last());
        let pre = cluster_names_spec(ranked.drop_last());
        if !taken(pre, ranked.last().0, ranked.last().1) {
            let r = cluster_names_spec(ranked);
            assert forall|i: int, j: int| 0 <= i < j < r.len() implies (#[trigger] r[i]).0 != (#[trigger] r[j]).0
                && r[i].1 != r[j].1 by {
                if j == pre.len() {
                    assert(r[i] == pre[i]);
                    assert(r[j] == ranked.last());
                    assert(!((pre[i]).0 == ranked.last().0 || pre[i].1 == ranked.last().1));
                } else {
                    assert(r[i] == pre[i] && r[j] == pre[j]);
                }
            }
        }
    }
}

} // verus!
