//! Transcript editing: splitting one sentence in two and merging two
//! adjacent sentences back into one.

use vstd::prelude::*;

use crate::doc::{
    entries_map, lemma_paragraph_words_push, paragraph_sentences, remove_entry, sentence_words,
    sentences_view, strings_view, words_view, Doc, ParagraphView, Sentence, SentenceView,
    TranslationGroup, TranslationGroupView, TranslationTrack, Word, WordView,
};
use crate::error::{AppError, AppResult};
use crate::search::{
    regex_accepts, regex_error_message, regex_replace_all, replace_spec, replace_text, Pattern,
};
use crate::text::{
    ascii_alnum, decimal, digit_char, digits_value, is_ascii_alnum, push_char, push_decimal,
    push_str, str_eq,
};

verus! {

/// Two surfaces are joined with a space when both sides of the seam are
/// ASCII letters or digits; CJK text and punctuation join directly.
pub open spec fn needs_space(left: Seq<char>, right: Seq<char>) -> bool {
    &&& left.len() > 0
    &&& is_ascii_alnum(left.last())
    &&& right.len() > 0
    &&& is_ascii_alnum(right[0])
}

pub open spec fn join_spec(left: Seq<char>, right: Seq<char>) -> Seq<char> {
    if needs_space(left, right) {
        left + seq![' '] + right
    } else {
        left + right
    }
}

/// The surface text of a run of words.
pub open spec fn words_text_spec(ws: Seq<WordView>) -> Seq<char>
    decreases ws.len(),
{
    if ws.len() == 0 {
        Seq::empty()
    } else {
        join_spec(words_text_spec(ws.drop_last()), ws.last().text)
    }
}

pub fn surface_needs_space(left: &str, right: &str) -> (r: bool)
    ensures
        r == needs_space(left@, right@),
{
    let n = left.unicode_len();
    let m = right.unicode_len();
    n > 0 && ascii_alnum(left.get_char(n - 1)) && m > 0 && ascii_alnum(right.get_char(0))
}

pub fn join_surfaces(left: &str, right: &str) -> (r: String)
    ensures
        r@ == join_spec(left@, right@),
{
    let mut s = String::new();
    push_str(&mut s, left);
    if surface_needs_space(left, right) {
        push_char(&mut s, ' ');
    }
    push_str(&mut s, right);
    s
}

pub fn words_text(words: &Vec<Word>) -> (r: String)
    ensures
        r@ == words_text_spec(words_view(words@)),
{
    let mut text = String::new();
    let mut i: usize = 0;
    while i < words.len()
        invariant
            0 <= i <= words@.len(),
            text@ == words_text_spec(words_view(words@).subrange(0, i as int)),
        decreases words@.len() - i,
    {
        let t = join_surfaces(text.as_str(), words[i].text.as_str());
        assert(words_view(words@).subrange(0, i + 1).drop_last() =~= words_view(
            words@,
        ).subrange(0, i as int));
        text = t;
        i = i + 1;
    }
    assert(words_view(words@).subrange(0, i as int) =~= words_view(words@));
    text
}

/// Index of the first sentence at or after `k` with id `id`, or -1.
pub open spec fn find_sentence(ss: Seq<SentenceView>, id: Seq<char>, k: int) -> int
    decreases ss.len() - k,
{
    if k < 0 || k >= ss.len() {
        -1
    } else if ss[k].id == id {
        k
    } else {
        find_sentence(ss, id, k + 1)
    }
}

pub proof fn lemma_find_sentence(ss: Seq<SentenceView>, id: Seq<char>, k: int)
    requires
        0 <= k,
    ensures
        find_sentence(ss, id, k) == -1 || (k <= find_sentence(ss, id, k) < ss.len()
            && ss[find_sentence(ss, id, k)].id == id),
        find_sentence(ss, id, k) == -1 ==> forall|j: int| k <= j < ss.len() ==> ss[j].id != id,
        find_sentence(ss, id, k) != -1 ==> forall|j: int|
            k <= j < find_sentence(ss, id, k) ==> ss[j].id != id,
    decreases ss.len() - k,
{
    if k < ss.len() && ss[k].id != id {
        lemma_find_sentence(ss, id, k + 1);
    }
}

/// First sentence with id `id` in a list.
pub fn find_sentence_index(ss: &Vec<Sentence>, id: &str) -> (r: Option<usize>)
    ensures
        match r {
            Some(k) => k as int == find_sentence(sentences_view(ss@), id@, 0),
            None => find_sentence(sentences_view(ss@), id@, 0) == -1,
        },
{
    let ghost sv = sentences_view(ss@);
    let mut k: usize = 0;
    while k < ss.len()
        invariant
            sv == sentences_view(ss@),
            0 <= k <= ss@.len(),
            find_sentence(sv, id@, k as int) == find_sentence(sv, id@, 0),
        decreases ss@.len() - k,
    {
        if str_eq(ss[k].id.as_str(), id) {
            return Some(k);
        }
        k = k + 1;
    }
    None
}

/// Index of the first paragraph at or after `p` holding a sentence `id`,
/// or -1.
pub open spec fn find_para(ps: Seq<ParagraphView>, id: Seq<char>, p: int) -> int
    decreases ps.len() - p,
{
    if p < 0 || p >= ps.len() {
        -1
    } else if find_sentence(ps[p].sentences, id, 0) >= 0 {
        p
    } else {
        find_para(ps, id, p + 1)
    }
}

/// The candidate ids for the second half of a split of `id`: `id-b`, then
/// `id-b2`, `id-b3`, …
pub open spec fn split_candidate(id: Seq<char>, n: nat) -> Seq<char> {
    if n < 2 {
        id + "-b"@
    } else {
        id + "-b"@ + decimal(n)
    }
}

/// The first candidate at or after `n` that `ids` does not hold, trying at
/// most `fuel` more.
pub open spec fn free_candidate(ids: Seq<Seq<char>>, id: Seq<char>, n: nat, fuel: nat) -> Seq<
    char,
>
    decreases fuel,
{
    if fuel == 0 || !ids.contains(split_candidate(id, n)) {
        split_candidate(id, n)
    } else {
        free_candidate(
            ids,
            id,
            if n < 2 {
                2
            } else {
                n + 1
            },
            (fuel - 1) as nat,
        )
    }
}

/// Id of the second half when `id` is split in a document whose sentence
/// ids are `ids`.
pub open spec fn split_id(ids: Seq<Seq<char>>, id: Seq<char>) -> Seq<char> {
    free_candidate(ids, id, 1, ids.len() + 1)
}

pub proof fn lemma_decimal_value(n: nat)
    ensures
        digits_value(decimal(n)) == n,
        decimal(n).len() > 0,
    decreases n,
{
    let d = n % 10;
    assert(digit_char(d) as int - '0' as int == d);
    if n >= 10 {
        lemma_decimal_value(n / 10);
        assert(decimal(n).drop_last() =~= decimal(n / 10));
        assert(decimal(n).last() == digit_char(d));
        assert(digits_value(decimal(n)) == digits_value(decimal(n / 10)) * 10 + d);
        assert((n / 10) * 10 + d == n);
    } else {
        assert(decimal(n).drop_last() =~= Seq::<char>::empty());
        assert(decimal(n).last() == digit_char(n));
        assert(digits_value(Seq::<char>::empty()) == 0);
        assert(digits_value(decimal(n)) == digits_value(decimal(n).drop_last()) * 10 + (
        decimal(n).last() as int - '0' as int));
    }
}

pub proof fn lemma_candidates_distinct(id: Seq<char>, a: nat, b: nat)
    requires
        a != b,
        a >= 1,
        b >= 1,
        !(a < 2 && b < 2),
    ensures
        split_candidate(id, a) != split_candidate(id, b),
{
    let pre = id + "-b"@;
    lemma_decimal_value(a);
    lemma_decimal_value(b);
    let ca = split_candidate(id, a);
    let cb = split_candidate(id, b);
    if a >= 2 && b >= 2 {
        assert(ca =~= pre + decimal(a));
        assert(cb =~= pre + decimal(b));
        if ca == cb {
            assert(decimal(a) =~= ca.subrange(pre.len() as int, ca.len() as int));
            assert(decimal(b) =~= cb.subrange(pre.len() as int, cb.len() as int));
        }
    } else if a >= 2 {
        assert(ca =~= pre + decimal(a));
        assert(cb =~= pre);
        assert(ca.len() > cb.len());
    } else {
        assert(cb =~= pre + decimal(b));
        assert(ca =~= pre);
        assert(cb.len() > ca.len());
    }
}

/// Every sentence id of a document, in order.
pub open spec fn sentence_ids(ss: Seq<SentenceView>) -> Seq<Seq<char>> {
    Seq::new(ss.len(), |i: int| ss[i].id)
}

pub fn collect_sentence_ids(doc: &Doc) -> (r: Vec<String>)
    ensures
        strings_view(r@) == sentence_ids(doc.sentences_v()),
{
    let mut out: Vec<String> = Vec::new();
    let mut p: usize = 0;
    while p < doc.paragraphs.len()
        invariant
            0 <= p <= doc.paragraphs@.len(),
            strings_view(out@) == sentence_ids(paragraph_sentences(
                doc.paragraphs_v().subrange(0, p as int),
            )),
        decreases doc.paragraphs@.len() - p,
    {
        let para = &doc.paragraphs[p];
        let ghost before = strings_view(out@);
        let mut s: usize = 0;
        while s < para.sentences.len()
            invariant
                0 <= s <= para.sentences@.len(),
                strings_view(out@) == before + sentence_ids(sentences_view(para.sentences@).subrange(
                    0,
                    s as int,
                )),
            decreases para.sentences@.len() - s,
        {
            let ghost prev = out@;
            let id = para.sentences[s].id.clone();
            out.push(id);
            assert(out@ == prev.push(id));
            assert(strings_view(out@) =~= strings_view(prev).push(id@));
            assert(sentence_ids(sentences_view(para.sentences@).subrange(0, s + 1)) =~= sentence_ids(
                sentences_view(para.sentences@).subrange(0, s as int),
            ).push(id@));
            assert(strings_view(out@) =~= before + sentence_ids(sentences_view(
                para.sentences@,
            ).subrange(0, s + 1)));
            s = s + 1;
        }
        proof {
            let pv = doc.paragraphs_v();
            assert(sentences_view(para.sentences@).subrange(0, s as int) =~= pv[p as int].sentences);
            assert(pv.subrange(0, p + 1) =~= pv.subrange(0, p as int).push(pv[p as int]));
            lemma_paragraph_words_push(pv.subrange(0, p as int), pv[p as int]);
            assert(sentence_ids(paragraph_sentences(pv.subrange(0, p + 1))) =~= before
                + sentence_ids(pv[p as int].sentences));
        }
        p = p + 1;
    }
    assert(doc.paragraphs_v().subrange(0, p as int) =~= doc.paragraphs_v());
    out
}

fn contains_id(ids: &Vec<String>, id: &str) -> (r: bool)
    ensures
        r == strings_view(ids@).contains(id@),
{
    let mut i: usize = 0;
    while i < ids.len()
        invariant
            0 <= i <= ids@.len(),
            forall|k: int| 0 <= k < i ==> ids@[k]@ != id@,
        decreases ids@.len() - i,
    {
        if str_eq(ids[i].as_str(), id) {
            assert(strings_view(ids@)[i as int] == id@);
            return true;
        }
        i = i + 1;
    }
    assert forall|k: int| 0 <= k < strings_view(ids@).len() implies strings_view(ids@)[k] != id@ by {
        assert(ids@[k]@ != id@);
    }
    false
}

fn candidate_string(id: &str, n: usize) -> (r: String)
    ensures
        r@ == split_candidate(id@, n as nat),
{
    let mut s = String::new();
    push_str(&mut s, id);
    push_str(&mut s, "-b");
    if n >= 2 {
        push_decimal(&mut s, n as u64);
    }
    s
}

/// The id for the second half of a split of `id`: `id-b`, or the first of
/// `id-b2`, `id-b3`, … no sentence holds yet.
fn fresh_split_id(ids: &Vec<String>, id: &str) -> (r: String)
    requires
        ids@.len() + 3 < usize::MAX,
    ensures
        r@ == split_id(strings_view(ids@), id@),
        !strings_view(ids@).contains(r@),
{
    let ghost sv = strings_view(ids@);
    let ghost bound = ids@.len() + 1;
    let mut n: usize = 1;
    let mut candidate = candidate_string(id, 1);
    let ghost mut tried: Set<Seq<char>> = Set::empty();
    proof {
        sv.lemma_cardinality_of_set();
    }
    while contains_id(ids, candidate.as_str())
        invariant
            sv == strings_view(ids@),
            ids@.len() + 3 < usize::MAX,
            bound == ids@.len() + 1,
            1 <= n,
            candidate@ == split_candidate(id@, n as nat),
            free_candidate(sv, id@, n as nat, (bound - (if n < 2 {
                0
            } else {
                n - 1
            })) as nat) == split_id(sv, id@),
            tried.finite(),
            tried.subset_of(sv.to_set()),
            tried.len() == (if n < 2 {
                0
            } else {
                n - 1
            }),
            forall|k: nat| 1 <= k < n && !(k >= 1 && k < 2 && n < 2) ==> #[trigger] tried.contains(
                split_candidate(id@, k),
            ),
            forall|x: Seq<char>| #[trigger] tried.contains(x) ==> exists|k: nat|
                1 <= k < n && x == split_candidate(id@, k),
            sv.to_set().len() <= sv.len(),
        decreases bound + 2 - n,
    {
        proof {
            assert(sv.contains(candidate@));
            assert(!tried.contains(candidate@)) by {
                if tried.contains(candidate@) {
                    let k = choose|k: nat| 1 <= k < n && candidate@ == split_candidate(id@, k);
                    if !(k < 2 && n < 2) {
                        lemma_candidates_distinct(id@, k, n as nat);
                    }
                }
            }
            let t2 = tried.insert(candidate@);
            assert(t2.subset_of(sv.to_set()));
            vstd::set_lib::lemma_len_subset(t2, sv.to_set());
            tried = t2;
        }
        n = if n < 2 {
            2
        } else {
            n + 1
        };
        candidate = candidate_string(id, n);
    }
    proof {
        let fuel = (bound - (if n < 2 {
            0
        } else {
            n - 1
        })) as nat;
        assert(free_candidate(sv, id@, n as nat, fuel) == split_candidate(id@, n as nat));
    }
    candidate
}

/// The sentences after splitting sentence `i` before word `at`; the second
/// half gets id `new_id`, and each half's text is rebuilt from its words.
pub open spec fn split_sentences(
    ss: Seq<SentenceView>,
    i: int,
    at: int,
    new_id: Seq<char>,
) -> Seq<SentenceView> {
    let s = ss[i];
    let wa = s.words.subrange(0, at);
    let wb = s.words.subrange(at, s.words.len() as int);
    ss.subrange(0, i) + seq![
        SentenceView { id: s.id, text: words_text_spec(wa), words: wa },
        SentenceView { id: new_id, text: words_text_spec(wb), words: wb },
    ] + ss.subrange(i + 1, ss.len() as int)
}

/// The languages of the translation tracks.
pub open spec fn track_langs(ts: Seq<TranslationTrack>) -> Seq<Seq<char>> {
    Seq::new(ts.len(), |i: int| ts[i].lang@)
}

/// The translation map of each track.
pub open spec fn track_maps(ts: Seq<TranslationTrack>) -> Seq<Map<Seq<char>, TranslationGroupView>> {
    Seq::new(ts.len(), |i: int| entries_map(ts[i].entries@))
}

/// Drops the translation of sentence `key` from every track.
fn remove_from_all_tracks(tracks: &mut Vec<TranslationTrack>, key: &str)
    ensures
        track_langs(final(tracks)@) == track_langs(old(tracks)@),
        track_maps(final(tracks)@) == Seq::new(
            old(tracks)@.len(),
            |i: int| track_maps(old(tracks)@)[i].remove(key@),
        ),
{
    let mut t: usize = 0;
    while t < tracks.len()
        invariant
            0 <= t <= tracks@.len(),
            tracks@.len() == old(tracks)@.len(),
            track_langs(tracks@) == track_langs(old(tracks)@),
            forall|j: int|
                0 <= j < t ==> #[trigger] track_maps(tracks@)[j] == track_maps(old(tracks)@)[j].remove(
                    key@,
                ),
            forall|j: int| t <= j < tracks@.len() ==> #[trigger] tracks@[j] == old(tracks)@[j],
        decreases tracks@.len() - t,
    {
        let ghost before = tracks@;
        assert(before[t as int] == old(tracks)@[t as int]);
        let track = &mut tracks[t];
        let _ = remove_entry(&mut track.entries, key);
        assert(tracks@ == before.update(t as int, tracks@[t as int]));
        assert(track_maps(tracks@)[t as int] == entries_map(tracks@[t as int].entries@));
        assert(track_maps(old(tracks)@)[t as int] == entries_map(old(tracks)@[t as int].entries@));
        assert(tracks@[t as int].lang == before[t as int].lang);
        assert forall|j: int| 0 <= j < t + 1 implies #[trigger] track_maps(tracks@)[j]
            == track_maps(old(tracks)@)[j].remove(key@) by {
            if j < t {
                assert(tracks@[j] == before[j]);
                assert(track_maps(tracks@)[j] == track_maps(before)[j]);
            }
        }
        assert(track_langs(tracks@) =~= track_langs(old(tracks)@));
        t = t + 1;
    }
    assert(track_maps(tracks@) =~= Seq::new(
        old(tracks)@.len(),
        |i: int| track_maps(old(tracks)@)[i].remove(key@),
    ));
}

/// Splits sentence `id` (the first with that id) in two before word `at`,
/// which must leave words on both sides. The first half keeps the id; the
/// second gets `id-b` (or `id-b2`, `id-b3`, … when taken). The sentence's
/// translations are dropped, since neither half matches them. Returns
/// whether a split happened; otherwise nothing changes.
pub fn split_sentence(doc: &mut Doc, id: &str, at: usize) -> (r: bool)
    requires
        old(doc).sentences_v().len() + 3 < usize::MAX,
    ensures
        ({
            let ps = old(doc).paragraphs_v();
            let p = find_para(ps, id@, 0);
            let ss = ps[p].sentences;
            let i = find_sentence(ss, id@, 0);
            if p == -1 || at == 0 || at >= ss[i].words.len() {
                !r && *final(doc) == *old(doc)
            } else {
                &&& r
                &&& final(doc).id == old(doc).id
                &&& final(doc).schema == old(doc).schema
                &&& final(doc).media == old(doc).media
                &&& final(doc).meta == old(doc).meta
                &&& final(doc).paragraphs_v() == ps.update(
                    p,
                    ParagraphView {
                        id: ps[p].id,
                        speaker: ps[p].speaker,
                        sentences: split_sentences(
                            ss,
                            i,
                            at as int,
                            split_id(sentence_ids(old(doc).sentences_v()), id@),
                        ),
                    },
                )
                &&& track_langs(final(doc).translations@) == track_langs(old(doc).translations@)
                &&& track_maps(final(doc).translations@) == Seq::new(
                    old(doc).translations@.len(),
                    |j: int| track_maps(old(doc).translations@)[j].remove(id@),
                )
            }
        }),
{
    let ids = collect_sentence_ids(doc);
    let new_id = fresh_split_id(&ids, id);
    let ghost ps = doc.paragraphs_v();
    let mut p: usize = 0;
    while p < doc.paragraphs.len()
        invariant
            *doc == *old(doc),
            ps == old(doc).paragraphs_v(),
            new_id@ == split_id(sentence_ids(old(doc).sentences_v()), id@),
            0 <= p <= doc.paragraphs@.len(),
            find_para(ps, id@, p as int) == find_para(ps, id@, 0),
        decreases doc.paragraphs@.len() - p,
    {
        let ghost sv = ps[p as int].sentences;
        assert(sv == sentences_view(doc.paragraphs@[p as int].sentences@));
        proof {
            lemma_find_sentence(sv, id@, 0);
        }
        match find_sentence_index(&doc.paragraphs[p].sentences, id) {
            None => {},
            Some(i) => {
                assert(sv[i as int] == doc.paragraphs@[p as int].sentences@[i as int]@);
                let len = doc.paragraphs[p].sentences[i].words.len();
                if at == 0 || at >= len {
                    return false;
                }
                let ghost ss = ps[p as int].sentences;
                let para = &mut doc.paragraphs[p];
                let ghost orig = para.sentences@;
                assert(ss == sentences_view(orig));
                let mut sent = para.sentences.remove(i);
                assert(sent@ == ss[i as int]);
                let ghost ws = words_view(sent.words@);
                let wb = sent.words.split_off(at);
                assert(words_view(sent.words@) =~= ws.subrange(0, at as int));
                assert(words_view(wb@) =~= ws.subrange(at as int, ws.len() as int));
                let text_a = words_text(&sent.words);
                let text_b = words_text(&wb);
                let a = Sentence { id: sent.id, text: text_a, words: sent.words };
                let b = Sentence { id: new_id, text: text_b, words: wb };
                let ghost mid = para.sentences@;
                assert(mid == orig.remove(i as int));
                para.sentences.insert(i, b);
                para.sentences.insert(i, a);
                assert(para.sentences@ == orig.remove(i as int).insert(i as int, b).insert(i as int, a));
                proof {
                    assert(sentences_view(para.sentences@) =~= split_sentences(
                        ss,
                        i as int,
                        at as int,
                        new_id@,
                    ));
                }
                remove_from_all_tracks(&mut doc.translations, id);
                proof {
                    assert(doc.paragraphs_v() =~= ps.update(
                        p as int,
                        ParagraphView {
                            id: ps[p as int].id,
                            speaker: ps[p as int].speaker,
                            sentences: split_sentences(ss, i as int, at as int, new_id@),
                        },
                    ));
                }
                return true;
            },
        }
        p = p + 1;
    }
    false
}

/// Index of the first paragraph at or after `p` holding sentences `id1` and
/// `id2`, or -1.
pub open spec fn find_pair_para(ps: Seq<ParagraphView>, id1: Seq<char>, id2: Seq<char>, p: int) -> int
    decreases ps.len() - p,
{
    if p < 0 || p >= ps.len() {
        -1
    } else if find_sentence(ps[p].sentences, id1, 0) >= 0 && find_sentence(
        ps[p].sentences,
        id2,
        0,
    ) >= 0 {
        p
    } else {
        find_pair_para(ps, id1, id2, p + 1)
    }
}

/// The sentences after merging sentence `b` (= `a + 1`) into sentence `a`.
pub open spec fn merged_sentence(ss: Seq<SentenceView>, a: int, b: int) -> SentenceView {
    SentenceView {
        id: ss[a].id,
        text: join_spec(ss[a].text, ss[b].text),
        words: ss[a].words + ss[b].words,
    }
}

pub open spec fn merged_sentences(ss: Seq<SentenceView>, a: int, b: int) -> Seq<SentenceView> {
    ss.subrange(0, a).push(merged_sentence(ss, a, b)) + ss.subrange(b + 1, ss.len() as int)
}

/// A translation track after merging sentence `removed` into `kept`: both
/// translations are dropped, and when both existed their join takes the
/// kept id, recording `source` as its source text.
pub open spec fn merged_track(
    m: Map<Seq<char>, TranslationGroupView>,
    kept: Seq<char>,
    removed: Seq<char>,
    source: Seq<char>,
) -> Map<Seq<char>, TranslationGroupView> {
    if m.contains_key(kept) && m.contains_key(removed) {
        m.remove(kept).remove(removed).insert(
            kept,
            TranslationGroupView {
                id: kept,
                text: join_spec(m[kept].text, m[removed].text),
                source_words: m[kept].source_words + m[removed].source_words,
                source_text: Some(source),
            },
        )
    } else {
        m.remove(kept).remove(removed)
    }
}

fn merge_in_tracks(tracks: &mut Vec<TranslationTrack>, kept: &str, removed: &str, source: &str)
    requires
        kept@ != removed@,
    ensures
        track_langs(final(tracks)@) == track_langs(old(tracks)@),
        track_maps(final(tracks)@) == Seq::new(
            old(tracks)@.len(),
            |i: int| merged_track(track_maps(old(tracks)@)[i], kept@, removed@, source@),
        ),
{
    let mut t: usize = 0;
    while t < tracks.len()
        invariant
            0 <= t <= tracks@.len(),
            kept@ != removed@,
            tracks@.len() == old(tracks)@.len(),
            track_langs(tracks@) == track_langs(old(tracks)@),
            forall|j: int|
                0 <= j < t ==> #[trigger] track_maps(tracks@)[j] == merged_track(
                    track_maps(old(tracks)@)[j],
                    kept@,
                    removed@,
                    source@,
                ),
            forall|j: int| t <= j < tracks@.len() ==> #[trigger] tracks@[j] == old(tracks)@[j],
        decreases tracks@.len() - t,
    {
        let ghost before = tracks@;
        assert(before[t as int] == old(tracks)@[t as int]);
        let ghost m = entries_map(before[t as int].entries@);
        let track = &mut tracks[t];
        let first = remove_entry(&mut track.entries, kept);
        let second = remove_entry(&mut track.entries, removed);
        assert(entries_map(track.entries@) == m.remove(kept@).remove(removed@));
        assert(first is Some <==> m.contains_key(kept@));
        assert(second is Some <==> m.remove(kept@).contains_key(removed@));
        assert(m.remove(kept@).contains_key(removed@) <==> m.contains_key(removed@));
        if first.is_some() && second.is_some() {
            let mut g1 = first.unwrap();
            let g2 = second.unwrap();
            let TranslationGroup { id: _, text: text2, source_words: words2, source_text: _ } = g2;
            let ghost w1 = strings_view(g1.source_words@);
            let mut words2 = words2;
            let ghost w2 = strings_view(words2@);
            g1.id = crate::text::owned(kept);
            g1.text = join_surfaces(g1.text.as_str(), text2.as_str());
            g1.source_words.append(&mut words2);
            assert(strings_view(g1.source_words@) =~= w1 + w2);
            g1.source_text = Some(crate::text::owned(source));
            let ghost e = track.entries@;
            let key = crate::text::owned(kept);
            track.entries.push((key, g1));
            proof {
                crate::doc::lemma_entries_map_push(e, (key, g1));
                assert(entries_map(track.entries@) =~= merged_track(m, kept@, removed@, source@));
            }
        } else {
            assert(!(m.contains_key(kept@) && m.contains_key(removed@)));
            assert(entries_map(track.entries@) =~= merged_track(m, kept@, removed@, source@));
        }
        assert(tracks@ == before.update(t as int, tracks@[t as int]));
        assert(track_maps(tracks@)[t as int] == entries_map(tracks@[t as int].entries@));
        assert(tracks@[t as int].lang == before[t as int].lang);
        assert(track_langs(tracks@) =~= track_langs(old(tracks)@));
        assert forall|j: int| 0 <= j < t + 1 implies #[trigger] track_maps(tracks@)[j]
            == merged_track(track_maps(old(tracks)@)[j], kept@, removed@, source@) by {
            if j < t {
                assert(tracks@[j] == before[j]);
                assert(track_maps(tracks@)[j] == track_maps(before)[j]);
            }
        }
        t = t + 1;
    }
    assert(track_maps(tracks@) =~= Seq::new(
        old(tracks)@.len(),
        |i: int| merged_track(track_maps(old(tracks)@)[i], kept@, removed@, source@),
    ));
}

/// Merges sentences `id1` and `id2` of the first paragraph holding both,
/// when they are adjacent there: the earlier keeps its id, the texts join
/// (with a space only between Latin letters or digits) and the words are
/// concatenated. Translations of the two merge the same way when both
/// exist and are dropped otherwise. Returns whether they merged; otherwise
/// nothing changes.
pub fn merge_sentences(doc: &mut Doc, id1: &str, id2: &str) -> (r: bool)
    ensures
        ({
            let ps = old(doc).paragraphs_v();
            let p = find_pair_para(ps, id1@, id2@, 0);
            let ss = ps[p].sentences;
            let i = find_sentence(ss, id1@, 0);
            let j = find_sentence(ss, id2@, 0);
            let a = if i < j {
                i
            } else {
                j
            };
            let b = if i < j {
                j
            } else {
                i
            };
            if p == -1 || b != a + 1 {
                !r && *final(doc) == *old(doc)
            } else {
                &&& r
                &&& final(doc).id == old(doc).id
                &&& final(doc).schema == old(doc).schema
                &&& final(doc).media == old(doc).media
                &&& final(doc).meta == old(doc).meta
                &&& final(doc).paragraphs_v() == ps.update(
                    p,
                    ParagraphView {
                        id: ps[p].id,
                        speaker: ps[p].speaker,
                        sentences: merged_sentences(ss, a, b),
                    },
                )
                &&& track_langs(final(doc).translations@) == track_langs(old(doc).translations@)
                &&& track_maps(final(doc).translations@) == Seq::new(
                    old(doc).translations@.len(),
                    |t: int|
                        merged_track(
                            track_maps(old(doc).translations@)[t],
                            ss[a].id,
                            ss[b].id,
                            join_spec(ss[a].text, ss[b].text),
                        ),
                )
            }
        }),
{
    let ghost ps = doc.paragraphs_v();
    let mut p: usize = 0;
    while p < doc.paragraphs.len()
        invariant
            *doc == *old(doc),
            ps == old(doc).paragraphs_v(),
            0 <= p <= doc.paragraphs@.len(),
            find_pair_para(ps, id1@, id2@, p as int) == find_pair_para(ps, id1@, id2@, 0),
        decreases doc.paragraphs@.len() - p,
    {
        let ghost sv = ps[p as int].sentences;
        assert(sv == sentences_view(doc.paragraphs@[p as int].sentences@));
        proof {
            lemma_find_sentence(sv, id1@, 0);
            lemma_find_sentence(sv, id2@, 0);
        }
        let pos1 = find_sentence_index(&doc.paragraphs[p].sentences, id1);
        let pos2 = find_sentence_index(&doc.paragraphs[p].sentences, id2);
        if let (Some(i), Some(j)) = (pos1, pos2) {
            let (a, b) = if i < j {
                (i, j)
            } else {
                (j, i)
            };
            if b - a != 1 {
                return false;
            }
            let para = &mut doc.paragraphs[p];
            let ghost orig = para.sentences@;
            assert(sv == sentences_view(orig));
            let mut sb = para.sentences.remove(b);
            let mut sa = para.sentences.remove(a);
            assert(sa@ == sv[a as int]);
            assert(sb@ == sv[b as int]);
            let ghost rest = para.sentences@;
            assert(rest == orig.remove(b as int).remove(a as int));
            let kept_id = sa.id.clone();
            let removed_id = sb.id.clone();
            let text = join_surfaces(sa.text.as_str(), sb.text.as_str());
            let ghost wa = words_view(sa.words@);
            let ghost wbv = words_view(sb.words@);
            let mut words = sa.words;
            words.append(&mut sb.words);
            assert(words_view(words@) =~= wa + wbv);
            let merged = Sentence { id: sa.id, text: text.clone(), words };
            assert(merged@ == merged_sentence(sv, a as int, b as int));
            para.sentences.insert(a, merged);
            proof {
                assert(sentences_view(para.sentences@) =~= merged_sentences(
                    sv,
                    a as int,
                    b as int,
                ));
            }
            merge_in_tracks(&mut doc.translations, kept_id.as_str(), removed_id.as_str(), text.as_str());
            proof {
                assert(doc.paragraphs_v() =~= ps.update(
                    p as int,
                    ParagraphView {
                        id: ps[p as int].id,
                        speaker: ps[p as int].speaker,
                        sentences: merged_sentences(sv, a as int, b as int),
                    },
                ));
            }
            return true;
        }
        p = p + 1;
    }
    false
}

pub proof fn lemma_sentence_words_concat(a: Seq<SentenceView>, b: Seq<SentenceView>)
    ensures
        sentence_words(a + b) == sentence_words(a) + sentence_words(b),
    decreases b.len(),
{
    if b.len() == 0 {
        assert(a + b =~= a);
        assert(sentence_words(a) + sentence_words(b) =~= sentence_words(a));
    } else {
        lemma_sentence_words_concat(a, b.drop_last());
        assert((a + b).drop_last() =~= a + b.drop_last());
        assert((a + b).last() == b.last());
        assert(sentence_words(a + b) =~= sentence_words(a) + sentence_words(b));
    }
}

pub proof fn lemma_sentence_words_small(x: SentenceView, y: SentenceView)
    ensures
        sentence_words(seq![x]) == x.words,
        sentence_words(seq![x, y]) == x.words + y.words,
{
    let e = Seq::<SentenceView>::empty();
    assert(seq![x] =~= e.push(x));
    assert(seq![x, y] =~= seq![x].push(y));
    crate::doc::lemma_sentence_words_push(e, x);
    crate::doc::lemma_sentence_words_push(seq![x], y);
    assert(sentence_words(e) =~= Seq::<WordView>::empty());
    assert(Seq::<WordView>::empty() + x.words =~= x.words);
}

/// Splitting a sentence neither adds, drops nor reorders words.
pub proof fn law_split_keeps_words(ss: Seq<SentenceView>, i: int, at: int, new_id: Seq<char>)
    requires
        0 <= i < ss.len(),
        0 < at < ss[i].words.len(),
    ensures
        sentence_words(split_sentences(ss, i, at, new_id)) == sentence_words(ss),
{
    let s = ss[i];
    let wa = s.words.subrange(0, at);
    let wb = s.words.subrange(at, s.words.len() as int);
    let sa = SentenceView { id: s.id, text: words_text_spec(wa), words: wa };
    let sb = SentenceView { id: new_id, text: words_text_spec(wb), words: wb };
    let pre = ss.subrange(0, i);
    let post = ss.subrange(i + 1, ss.len() as int);
    assert(split_sentences(ss, i, at, new_id) =~= pre + (seq![sa, sb] + post));
    assert(ss =~= pre + (seq![s] + post));
    lemma_sentence_words_concat(pre, seq![sa, sb] + post);
    lemma_sentence_words_concat(seq![sa, sb], post);
    lemma_sentence_words_concat(pre, seq![s] + post);
    lemma_sentence_words_concat(seq![s], post);
    lemma_sentence_words_small(sa, sb);
    lemma_sentence_words_small(s, sb);
    assert(wa + wb =~= s.words);
}

/// Merging two adjacent sentences neither adds, drops nor reorders words.
pub proof fn law_merge_keeps_words(ss: Seq<SentenceView>, a: int)
    requires
        0 <= a,
        a + 1 < ss.len(),
    ensures
        sentence_words(merged_sentences(ss, a, a + 1)) == sentence_words(ss),
{
    let m = merged_sentence(ss, a, a + 1);
    let pre = ss.subrange(0, a);
    let post = ss.subrange(a + 2, ss.len() as int);
    assert(merged_sentences(ss, a, a + 1) =~= pre + (seq![m] + post));
    assert(ss =~= pre + (seq![ss[a], ss[a + 1]] + post));
    lemma_sentence_words_concat(pre, seq![m] + post);
    lemma_sentence_words_concat(seq![m], post);
    lemma_sentence_words_concat(pre, seq![ss[a], ss[a + 1]] + post);
    lemma_sentence_words_concat(seq![ss[a], ss[a + 1]], post);
    lemma_sentence_words_small(m, m);
    lemma_sentence_words_small(ss[a], ss[a + 1]);
}

pub proof fn lemma_join_assoc(x: Seq<char>, y: Seq<char>, z: Seq<char>)
    ensures
        join_spec(join_spec(x, y), z) == join_spec(x, join_spec(y, z)),
{
    if y.len() == 0 {
        assert(join_spec(x, y) =~= x);
        assert(join_spec(y, z) =~= z);
    } else {
        let xy = join_spec(x, y);
        let yz = join_spec(y, z);
        assert(xy.len() > 0 && xy.last() == y.last());
        assert(yz.len() > 0 && yz[0] == y[0]);
        assert(join_spec(xy, z) =~= join_spec(x, yz));
    }
}

pub proof fn lemma_words_text_concat(a: Seq<WordView>, b: Seq<WordView>)
    ensures
        words_text_spec(a + b) == join_spec(words_text_spec(a), words_text_spec(b)),
    decreases b.len(),
{
    if b.len() == 0 {
        assert(a + b =~= a);
        assert(join_spec(words_text_spec(a), Seq::<char>::empty()) =~= words_text_spec(a));
    } else {
        lemma_words_text_concat(a, b.drop_last());
        assert((a + b).drop_last() =~= a + b.drop_last());
        assert((a + b).last() == b.last());
        lemma_join_assoc(words_text_spec(a), words_text_spec(b.drop_last()), b.last().text);
    }
}

/// Merging the two halves of a split gives back the sentence's id and
/// words, with the text rebuilt from the words.
pub proof fn law_merge_undoes_split(ss: Seq<SentenceView>, i: int, at: int, new_id: Seq<char>)
    requires
        0 <= i < ss.len(),
        0 < at < ss[i].words.len(),
    ensures
        ({
            let split = split_sentences(ss, i, at, new_id);
            merged_sentences(split, i, i + 1) == ss.update(
                i,
                SentenceView {
                    id: ss[i].id,
                    text: words_text_spec(ss[i].words),
                    words: ss[i].words,
                },
            )
        }),
{
    let s = ss[i];
    let wa = s.words.subrange(0, at);
    let wb = s.words.subrange(at, s.words.len() as int);
    assert(wa + wb =~= s.words);
    lemma_words_text_concat(wa, wb);
    let split = split_sentences(ss, i, at, new_id);
    assert(merged_sentences(split, i, i + 1) =~= ss.update(
        i,
        SentenceView { id: s.id, text: words_text_spec(s.words), words: s.words },
    ));
}


/// The text of a cue after find-and-replace: a regular-expression
/// replacement when `regex` is set, a plain text replacement otherwise.
pub open spec fn replaced_text(t: Seq<char>, query: Seq<char>, rep: Seq<char>, regex: bool) -> Seq<char> {
    if regex {
        regex_replace_all(query, t, rep)
    } else {
        replace_spec(t, query, rep)
    }
}

/// The new text of a cue when the replacement changed it, else nothing.
pub open spec fn text_change(t: Seq<char>, query: Seq<char>, rep: Seq<char>, regex: bool) -> Option<Seq<char>> {
    let n = replaced_text(t, query, rep, regex);
    if n == t {
        None
    } else {
        Some(n)
    }
}

/// The change of each cue, in document order.
pub open spec fn text_changes(ss: Seq<SentenceView>, query: Seq<char>, rep: Seq<char>, regex: bool) -> Seq<Option<Seq<char>>> {
    Seq::new(ss.len(), |k: int| text_change(ss[k].text, query, rep, regex))
}

pub open spec fn opt_strs_view(v: Seq<Option<String>>) -> Seq<Option<Seq<char>>> {
    Seq::new(v.len(), |k: int| crate::doc::opt_str_view(v[k]))
}

proof fn lemma_paragraph_sentences_step(ps: Seq<ParagraphView>, p: int)
    requires
        0 <= p < ps.len(),
    ensures
        paragraph_sentences(ps.subrange(0, p + 1)) == paragraph_sentences(ps.subrange(0, p))
            + ps[p].sentences,
{
    assert(ps.subrange(0, p + 1).drop_last() =~= ps.subrange(0, p));
}

/// Find-and-replace over every cue of the document, without changing it:
/// for each cue in document order, its new text where the replacement
/// changes it, and `None` where it does not. With `regex` set, `query` is a
/// regular expression and an invalid one is a schema error whose message
/// starts with `regex: `.
pub fn replaced_texts(doc: &Doc, query: &str, replacement: &str, regex: bool) -> (r: AppResult<
    Vec<Option<String>>,
>)
    ensures
        r is Ok <==> (!regex || regex_accepts(query@)),
        r matches Ok(v) ==> opt_strs_view(v@) == text_changes(
            doc.sentences_v(),
            query@,
            replacement@,
            regex,
        ),
        r matches Err(e) ==> (e matches AppError::Schema(m) && m@.len() >= 7 && m@.subrange(0, 7)
            == "regex: "@),
{
    let pattern = if regex {
        match Pattern::compile(query) {
            Ok(p) => Some(p),
            Err(e) => {
                let mut m = String::new();
                push_str(&mut m, "regex: ");
                push_str(&mut m, regex_error_message(&e).as_str());
                proof {
                    reveal_strlit("regex: ");
                    assert(m@.subrange(0, 7) =~= "regex: "@);
                }
                return Err(AppError::Schema(m));
            },
        }
    } else {
        None
    };
    let ghost ps = doc.paragraphs_v();
    let ghost q = query@;
    let ghost rp = replacement@;
    let mut out: Vec<Option<String>> = Vec::new();
    let mut p: usize = 0;
    while p < doc.paragraphs.len()
        invariant
            ps == doc.paragraphs_v(),
            q == query@,
            rp == replacement@,
            regex ==> (pattern matches Some(pt) && pt.source() == q),
            0 <= p <= ps.len(),
            opt_strs_view(out@) =~= text_changes(
                paragraph_sentences(ps.subrange(0, p as int)),
                q,
                rp,
                regex,
            ),
        decreases ps.len() - p,
    {
        let para = &doc.paragraphs[p];
        assert(ps[p as int] == para@);
        let ghost pv = para@;
        let ghost pre = paragraph_sentences(ps.subrange(0, p as int));
        let mut i: usize = 0;
        while i < para.sentences.len()
            invariant
                pv == para@,
                q == query@,
                rp == replacement@,
                regex ==> (pattern matches Some(pt) && pt.source() == q),
                0 <= i <= pv.sentences.len(),
                opt_strs_view(out@) =~= text_changes(
                    pre + pv.sentences.subrange(0, i as int),
                    q,
                    rp,
                    regex,
                ),
            decreases pv.sentences.len() - i,
        {
            let st = &para.sentences[i];
            assert(pv.sentences[i as int] == st@);
            let new = match &pattern {
                Some(pt) => {
                    if regex {
                        pt.replace_all(st.text.as_str(), replacement)
                    } else {
                        replace_text(st.text.as_str(), query, replacement)
                    }
                },
                None => replace_text(st.text.as_str(), query, replacement),
            };
            assert(new@ == replaced_text(st.text@, q, rp, regex));
            let changed = !str_eq(new.as_str(), st.text.as_str());
            let ghost before = opt_strs_view(out@);
            if changed {
                out.push(Some(new));
            } else {
                out.push(None);
            }
            proof {
                assert((pre + pv.sentences.subrange(0, i + 1)) =~= (pre + pv.sentences.subrange(
                    0,
                    i as int,
                )).push(st@));
                assert(opt_strs_view(out@) =~= before.push(
                    text_change(st.text@, q, rp, regex),
                ));
            }
            i = i + 1;
        }
        proof {
            assert(pv.sentences.subrange(0, i as int) =~= pv.sentences);
            lemma_paragraph_sentences_step(ps, p as int);
        }
        p = p + 1;
    }
    proof {
        assert(ps.subrange(0, p as int) =~= ps);
    }
    Ok(out)
}


/// The new text given for cue `id`: the last update that names it.
pub open spec fn update_for(updates: Seq<(String, String)>, id: Seq<char>) -> Option<Seq<char>>
    decreases updates.len(),
{
    if updates.len() == 0 {
        None
    } else if updates.last().0@ == id {
        Some(updates.last().1@)
    } else {
        update_for(updates.drop_last(), id)
    }
}

/// The edit of one cue: its new text when an update names it and differs
/// from what it says now.
pub open spec fn edit_of(s: SentenceView, updates: Seq<(String, String)>) -> Option<Seq<char>> {
    match update_for(updates, s.id) {
        Some(t) => if t == s.text {
            None
        } else {
            Some(t)
        },
        None => None,
    }
}

pub open spec fn cue_edits(ss: Seq<SentenceView>, updates: Seq<(String, String)>) -> Seq<Option<Seq<char>>> {
    Seq::new(ss.len(), |k: int| edit_of(ss[k], updates))
}

fn lookup_update<'a>(updates: &'a Vec<(String, String)>, id: &str) -> (r: Option<&'a String>)
    ensures
        match r {
            Some(t) => update_for(updates@, id@) == Some(t@),
            None => update_for(updates@, id@) is None,
        },
{
    let mut j: usize = updates.len();
    assert(updates@.subrange(0, j as int) =~= updates@);
    while j > 0
        invariant
            j <= updates@.len(),
            update_for(updates@, id@) == update_for(updates@.subrange(0, j as int), id@),
        decreases j,
    {
        let ghost pre = updates@.subrange(0, j as int);
        assert(pre.drop_last() =~= updates@.subrange(0, j - 1));
        assert(pre.last() == updates@[j - 1]);
        if str_eq(updates[j - 1].0.as_str(), id) {
            return Some(&updates[j - 1].1);
        }
        j = j - 1;
    }
    None
}

/// Cue text edits over the document, without changing it: for each cue in
/// document order, its new text where an update names it (the last one
/// that does) and the text differs, and `None` otherwise.
pub fn text_edits(doc: &Doc, updates: &Vec<(String, String)>) -> (r: Vec<Option<String>>)
    ensures
        opt_strs_view(r@) == cue_edits(doc.sentences_v(), updates@),
{
    let ghost ps = doc.paragraphs_v();
    let mut out: Vec<Option<String>> = Vec::new();
    let mut p: usize = 0;
    while p < doc.paragraphs.len()
        invariant
            ps == doc.paragraphs_v(),
            0 <= p <= ps.len(),
            opt_strs_view(out@) =~= cue_edits(paragraph_sentences(ps.subrange(0, p as int)), updates@),
        decreases ps.len() - p,
    {
        let para = &doc.paragraphs[p];
        assert(ps[p as int] == para@);
        let ghost pv = para@;
        let ghost pre = paragraph_sentences(ps.subrange(0, p as int));
        let mut i: usize = 0;
        while i < para.sentences.len()
            invariant
                pv == para@,
                0 <= i <= pv.sentences.len(),
                opt_strs_view(out@) =~= cue_edits(pre + pv.sentences.subrange(0, i as int), updates@),
            decreases pv.sentences.len() - i,
        {
            let st = &para.sentences[i];
            assert(pv.sentences[i as int] == st@);
            let ghost before = opt_strs_view(out@);
            match lookup_update(updates, st.id.as_str()) {
                Some(t) => {
                    if str_eq(t.as_str(), st.text.as_str()) {
                        out.push(None);
                    } else {
                        out.push(Some(t.clone()));
                    }
                },
                None => out.push(None),
            }
            proof {
                assert((pre + pv.sentences.subrange(0, i + 1)) =~= (pre + pv.sentences.subrange(
                    0,
                    i as int,
                )).push(st@));
                assert(opt_strs_view(out@) =~= before.push(edit_of(st@, updates@)));
            }
            i = i + 1;
        }
        proof {
            assert(pv.sentences.subrange(0, i as int) =~= pv.sentences);
            lemma_paragraph_sentences_step(ps, p as int);
        }
        p = p + 1;
    }
    proof {
        assert(ps.subrange(0, p as int) =~= ps);
    }
    out
}

} // verus!
