//! Subtitle cue listing, translation, search and visibility state.
//!
//! Cues are the document's sentences. Which cues are hidden is kept apart
//! from the transcript, as a sorted list of cue ids.

use vstd::prelude::*;

use crate::doc::{
    clone_opt_string, entries_map, lemma_entries_map_push, opt_str_view, remove_entry, sentences_view, strings_view, words_view, Doc, ParagraphView,
    Sentence, SentenceView, TranslationGroup, TranslationGroupView, TranslationTrack, WordView,
};
use crate::edit::{find_para, find_sentence, find_sentence_index, lemma_find_sentence};
use crate::error::{AppError, AppResult};
use crate::search::{
    contains_seq, contains_text, lowercase, lowercase_of, regex_accepts, regex_error_message,
    regex_matches, Pattern,
};
use crate::speakers::lemma_find_para;
use crate::text::{
    lemma_seq_lt_irreflexive, lemma_seq_lt_total, lemma_seq_lt_trans, owned, push_str, seq_lt,
    str_eq, str_lt,
};

verus! {

/// The translations of a document by language; a later track of the same
/// language wins.
pub open spec fn tracks_map(ts: Seq<TranslationTrack>) -> Map<Seq<char>, Map<Seq<char>, TranslationGroupView>>
    decreases ts.len(),
{
    if ts.len() == 0 {
        Map::empty()
    } else {
        tracks_map(ts.drop_last()).insert(ts.last().lang@, entries_map(ts.last().entries@))
    }
}

/// Tracks after `i` that are not of language `l` do not change what the
/// map holds for `l`.
pub proof fn lemma_tracks_map_prefix(ts: Seq<TranslationTrack>, i: int, l: Seq<char>)
    requires
        0 <= i <= ts.len(),
        forall|j: int| i <= j < ts.len() ==> #[trigger] ts[j].lang@ != l,
    ensures
        tracks_map(ts).contains_key(l) == tracks_map(ts.subrange(0, i)).contains_key(l),
        tracks_map(ts).contains_key(l) ==> tracks_map(ts)[l] == tracks_map(ts.subrange(0, i))[l],
    decreases ts.len(),
{
    if ts.len() > i {
        assert(ts.drop_last().subrange(0, i) =~= ts.subrange(0, i));
        assert(ts.last().lang@ != l);
        lemma_tracks_map_prefix(ts.drop_last(), i, l);
    } else {
        assert(ts.subrange(0, i) =~= ts);
    }
}

/// Entries after `i` with other keys do not change what the map holds for
/// `k`.
pub proof fn lemma_entries_map_prefix(es: Seq<(String, TranslationGroup)>, i: int, k: Seq<char>)
    requires
        0 <= i <= es.len(),
        forall|j: int| i <= j < es.len() ==> #[trigger] es[j].0@ != k,
    ensures
        entries_map(es).contains_key(k) == entries_map(es.subrange(0, i)).contains_key(k),
        entries_map(es).contains_key(k) ==> entries_map(es)[k] == entries_map(es.subrange(0, i))[k],
    decreases es.len(),
{
    if es.len() > i {
        assert(es.drop_last().subrange(0, i) =~= es.subrange(0, i));
        assert(es.last().0@ != k);
        lemma_entries_map_prefix(es.drop_last(), i, k);
    } else {
        assert(es.subrange(0, i) =~= es);
    }
}

/// Replacing the last track of language `l` by another track of language
/// `l` replaces what the map holds for `l`.
pub proof fn lemma_tracks_map_update(ts: Seq<TranslationTrack>, t: int, x: TranslationTrack)
    requires
        0 <= t < ts.len(),
        x.lang@ == ts[t].lang@,
        forall|j: int| t < j < ts.len() ==> #[trigger] ts[j].lang@ != ts[t].lang@,
    ensures
        tracks_map(ts.update(t, x)) == tracks_map(ts).insert(x.lang@, entries_map(x.entries@)),
    decreases ts.len(),
{
    let u = ts.update(t, x);
    if t == ts.len() - 1 {
        assert(u.drop_last() =~= ts.drop_last());
        assert(tracks_map(u) =~= tracks_map(ts).insert(x.lang@, entries_map(x.entries@)));
    } else {
        assert(u.drop_last() =~= ts.drop_last().update(t, x));
        lemma_tracks_map_update(ts.drop_last(), t, x);
        assert(ts.last().lang@ != x.lang@);
        assert(tracks_map(u) =~= tracks_map(ts).insert(x.lang@, entries_map(x.entries@)));
    }
}

/// Index of the last track of language `lang`.
pub(crate) fn last_track(tracks: &Vec<TranslationTrack>, lang: &str) -> (r: Option<usize>)
    ensures
        match r {
            None => !tracks_map(tracks@).contains_key(lang@),
            Some(t) => {
                &&& t < tracks@.len()
                &&& tracks@[t as int].lang@ == lang@
                &&& forall|j: int| t < j < tracks@.len() ==> #[trigger] tracks@[j].lang@ != lang@
                &&& tracks_map(tracks@).contains_key(lang@)
                &&& tracks_map(tracks@)[lang@] == entries_map(tracks@[t as int].entries@)
            },
        },
{
    let mut i: usize = tracks.len();
    while i > 0
        invariant
            0 <= i <= tracks@.len(),
            forall|j: int| i <= j < tracks@.len() ==> #[trigger] tracks@[j].lang@ != lang@,
        decreases i,
    {
        if str_eq(tracks[i - 1].lang.as_str(), lang) {
            proof {
                lemma_tracks_map_prefix(tracks@, i as int, lang@);
                assert(tracks@.subrange(0, i as int).drop_last() =~= tracks@.subrange(0, i - 1));
            }
            return Some(i - 1);
        }
        i = i - 1;
    }
    proof {
        lemma_tracks_map_prefix(tracks@, 0, lang@);
    }
    None
}

/// The group stored under `key`, where a later entry wins.
pub(crate) fn lookup_entry<'a>(entries: &'a Vec<(String, TranslationGroup)>, key: &str) -> (r: Option<
    &'a TranslationGroup,
>)
    ensures
        match r {
            None => !entries_map(entries@).contains_key(key@),
            Some(g) => entries_map(entries@).contains_key(key@) && entries_map(entries@)[key@] == g@,
        },
{
    let mut i: usize = entries.len();
    while i > 0
        invariant
            0 <= i <= entries@.len(),
            forall|j: int| i <= j < entries@.len() ==> #[trigger] entries@[j].0@ != key@,
        decreases i,
    {
        if str_eq(entries[i - 1].0.as_str(), key) {
            proof {
                lemma_entries_map_prefix(entries@, i as int, key@);
                assert(entries@.subrange(0, i as int).drop_last() =~= entries@.subrange(0, i - 1));
            }
            return Some(&entries[i - 1].1);
        }
        i = i - 1;
    }
    proof {
        lemma_entries_map_prefix(entries@, 0, key@);
    }
    None
}

/// The text a cue shows: its translation into `lang` when one is stored,
/// else its own text.
pub open spec fn cue_text(
    ts: Seq<TranslationTrack>,
    lang: Option<Seq<char>>,
    s: SentenceView,
) -> Seq<char> {
    match lang {
        None => s.text,
        Some(l) => if tracks_map(ts).contains_key(l) && tracks_map(ts)[l].contains_key(s.id) {
            tracks_map(ts)[l][s.id].text
        } else {
            s.text
        },
    }
}

/// One subtitle row. `start` and `end` are the bits of the first word's
/// start and the last word's end, both 0 (`0.0`) for a cue without words.
#[derive(Debug)]
pub struct SubtitleRow {
    pub id: String,
    pub text: String,
    pub speaker: Option<String>,
    pub hidden: bool,
    pub start: u64,
    pub end: u64,
}

pub struct SubtitleRowView {
    pub id: Seq<char>,
    pub text: Seq<char>,
    pub speaker: Option<Seq<char>>,
    pub hidden: bool,
    pub start: u64,
    pub end: u64,
}

impl View for SubtitleRow {
    type V = SubtitleRowView;

    open spec fn view(&self) -> SubtitleRowView {
        SubtitleRowView {
            id: self.id@,
            text: self.text@,
            speaker: opt_str_view(self.speaker),
            hidden: self.hidden,
            start: self.start,
            end: self.end,
        }
    }
}

pub open spec fn rows_view(r: Seq<SubtitleRow>) -> Seq<SubtitleRowView> {
    Seq::new(r.len(), |i: int| r[i]@)
}

/// The row of cue `s` in a paragraph with speaker `speaker`.
pub open spec fn row_of(
    ts: Seq<TranslationTrack>,
    hidden: Seq<Seq<char>>,
    lang: Option<Seq<char>>,
    speaker: Option<Seq<char>>,
    s: SentenceView,
) -> SubtitleRowView {
    SubtitleRowView {
        id: s.id,
        text: cue_text(ts, lang, s),
        speaker: speaker,
        hidden: hidden.contains(s.id),
        start: if s.words.len() > 0 {
            s.words[0].start
        } else {
            0
        },
        end: if s.words.len() > 0 {
            s.words.last().end
        } else {
            0
        },
    }
}

/// One row per sentence, in document order.
pub open spec fn rows_spec(
    ps: Seq<ParagraphView>,
    ts: Seq<TranslationTrack>,
    hidden: Seq<Seq<char>>,
    lang: Option<Seq<char>>,
) -> Seq<SubtitleRowView>
    decreases ps.len(),
{
    if ps.len() == 0 {
        Seq::empty()
    } else {
        let p = ps.last();
        rows_spec(ps.drop_last(), ts, hidden, lang) + Seq::new(
            p.sentences.len(),
            |i: int| row_of(ts, hidden, lang, p.speaker, p.sentences[i]),
        )
    }
}

pub open spec fn opt_ref_view(o: Option<&str>) -> Option<Seq<char>> {
    match o {
        Some(s) => Some(s@),
        None => None,
    }
}

/// Whether `id` is one of `ids`.
pub fn contains_id(ids: &Vec<String>, id: &str) -> (r: bool)
    ensures
        r == strings_view(ids@).contains(id@),
{
    let mut i: usize = 0;
    while i < ids.len()
        invariant
            0 <= i <= ids@.len(),
            forall|j: int| 0 <= j < i ==> #[trigger] ids@[j]@ != id@,
        decreases ids@.len() - i,
    {
        if str_eq(ids[i].as_str(), id) {
            assert(strings_view(ids@)[i as int] == id@);
            return true;
        }
        i = i + 1;
    }
    assert forall|j: int| 0 <= j < strings_view(ids@).len() implies strings_view(ids@)[j] != id@ by {
        assert(ids@[j]@ != id@);
    }
    false
}

/// One row per sentence. With `lang`, a cue shows its translation into that
/// language where one is stored; `hidden` lists the hidden cue ids.
pub fn list(doc: &Doc, hidden: &Vec<String>, lang: Option<&str>) -> (r: Vec<SubtitleRow>)
    ensures
        rows_view(r@) == rows_spec(
            doc.paragraphs_v(),
            doc.translations@,
            strings_view(hidden@),
            opt_ref_view(lang),
        ),
{
    let ghost ps = doc.paragraphs_v();
    let ghost ts = doc.translations@;
    let ghost hv = strings_view(hidden@);
    let ghost lv = opt_ref_view(lang);
    let track: Option<usize> = match lang {
        None => None,
        Some(l) => last_track(&doc.translations, l),
    };
    let mut out: Vec<SubtitleRow> = Vec::new();
    let mut p: usize = 0;
    while p < doc.paragraphs.len()
        invariant
            ps == doc.paragraphs_v(),
            ts == doc.translations@,
            hv == strings_view(hidden@),
            lv == opt_ref_view(lang),
            match track {
                None => lv is None || !tracks_map(ts).contains_key(lv->0),
                Some(t) => lv is Some && t < ts.len() && tracks_map(ts).contains_key(lv->0)
                    && tracks_map(ts)[lv->0] == entries_map(ts[t as int].entries@),
            },
            0 <= p <= ps.len(),
            rows_view(out@) == rows_spec(ps.subrange(0, p as int), ts, hv, lv),
        decreases ps.len() - p,
    {
        let para = &doc.paragraphs[p];
        assert(ps[p as int] == para@);
        let ghost pv = para@;
        let ghost base = rows_view(out@);
        assert(ps.subrange(0, p + 1).drop_last() =~= ps.subrange(0, p as int));
        let mut s: usize = 0;
        while s < para.sentences.len()
            invariant
                pv == para@,
                ts == doc.translations@,
                hv == strings_view(hidden@),
                lv == opt_ref_view(lang),
                match track {
                    None => lv is None || !tracks_map(ts).contains_key(lv->0),
                    Some(t) => lv is Some && t < ts.len() && tracks_map(ts).contains_key(lv->0)
                        && tracks_map(ts)[lv->0] == entries_map(ts[t as int].entries@),
                },
                0 <= s <= pv.sentences.len(),
                rows_view(out@) == base + Seq::new(
                    s as nat,
                    |i: int| row_of(ts, hv, lv, pv.speaker, pv.sentences[i]),
                ),
            decreases pv.sentences.len() - s,
        {
            let sent = &para.sentences[s];
            assert(pv.sentences[s as int] == sent@);
            let text = match track {
                None => sent.text.clone(),
                Some(t) => match lookup_entry(&doc.translations[t].entries, sent.id.as_str()) {
                    Some(g) => g.text.clone(),
                    None => sent.text.clone(),
                },
            };
            let n = sent.words.len();
            let ghost wv = words_view(sent.words@);
            let (start, end) = if n > 0 {
                assert(wv[0] == sent.words@[0]@);
                assert(wv[n - 1] == sent.words@[n - 1]@);
                (sent.words[0].start, sent.words[n - 1].end)
            } else {
                (0u64, 0u64)
            };
            let row = SubtitleRow {
                id: sent.id.clone(),
                text,
                speaker: clone_opt_string(&para.speaker),
                hidden: contains_id(hidden, sent.id.as_str()),
                start,
                end,
            };
            assert(row@ == row_of(ts, hv, lv, pv.speaker, pv.sentences[s as int]));
            let ghost before = out@;
            out.push(row);
            assert(rows_view(out@) =~= rows_view(before).push(row@));
            s = s + 1;
            assert(rows_view(out@) =~= base + Seq::new(
                s as nat,
                |i: int| row_of(ts, hv, lv, pv.speaker, pv.sentences[i]),
            ));
        }
        p = p + 1;
    }
    assert(ps.subrange(0, p as int) =~= ps);
    out
}

/// The ids of a list of words.
pub open spec fn word_ids(ws: Seq<WordView>) -> Seq<Seq<char>> {
    Seq::new(ws.len(), |i: int| ws[i].id)
}

/// The translation group recorded for source cue `s`.
pub open spec fn translation_of(id: Seq<char>, text: Seq<char>, s: SentenceView) -> TranslationGroupView {
    TranslationGroupView {
        id: id,
        text: text,
        source_words: word_ids(s.words),
        source_text: Some(s.text),
    }
}

fn collect_word_ids(sent: &Sentence) -> (r: Vec<String>)
    ensures
        strings_view(r@) == word_ids(sent@.words),
{
    let ghost wv = words_view(sent.words@);
    let mut out: Vec<String> = Vec::new();
    let mut i: usize = 0;
    while i < sent.words.len()
        invariant
            wv == words_view(sent.words@),
            0 <= i <= wv.len(),
            strings_view(out@) == word_ids(wv).subrange(0, i as int),
        decreases wv.len() - i,
    {
        let ghost before = out@;
        let c = sent.words[i].id.clone();
        assert(wv[i as int].id == c@);
        out.push(c);
        assert(strings_view(out@) =~= strings_view(before).push(c@));
        assert(word_ids(wv).subrange(0, i + 1) =~= word_ids(wv).subrange(0, i as int).push(c@));
        i = i + 1;
    }
    assert(word_ids(wv).subrange(0, i as int) =~= word_ids(wv));
    out
}

/// What the translations of language `lang` hold before a change.
pub open spec fn lang_entries(ts: Seq<TranslationTrack>, lang: Seq<char>) -> Map<Seq<char>, TranslationGroupView> {
    if tracks_map(ts).contains_key(lang) {
        tracks_map(ts)[lang]
    } else {
        Map::empty()
    }
}

/// Paragraph and sentence index of the first cue `id`.
pub fn find_cue(doc: &Doc, id: &str) -> (r: Option<(usize, usize)>)
    ensures
        ({
            let ps = doc.paragraphs_v();
            let p = find_para(ps, id@, 0);
            match r {
                None => p == -1,
                Some((a, i)) => {
                    &&& a == p
                    &&& 0 <= p < ps.len()
                    &&& i == find_sentence(ps[p].sentences, id@, 0)
                    &&& 0 <= i < ps[p].sentences.len()
                    &&& ps[p].sentences[i as int].id == id@
                },
            }
        }),
{
    let ghost ps = doc.paragraphs_v();
    proof {
        lemma_find_para(ps, id@, 0);
    }
    let mut p: usize = 0;
    while p < doc.paragraphs.len()
        invariant
            ps == doc.paragraphs_v(),
            0 <= p <= ps.len(),
            find_para(ps, id@, p as int) == find_para(ps, id@, 0),
        decreases ps.len() - p,
    {
        let para = &doc.paragraphs[p];
        assert(ps[p as int].sentences == sentences_view(para.sentences@));
        proof {
            lemma_find_sentence(ps[p as int].sentences, id@, 0);
        }
        match find_sentence_index(&para.sentences, id) {
            Some(i) => {
                return Some((p, i));
            },
            None => {},
        }
        p = p + 1;
    }
    None
}

/// Sets the translation of cue `id` into `lang`, recording the source text
/// and source word ids it was made from (the first cue with that id).
/// Returns false, changing nothing, when the cue does not exist.
pub fn set_translation(doc: &mut Doc, lang: &str, id: &str, text: &str) -> (r: bool)
    ensures
        final(doc).id == old(doc).id,
        final(doc).schema == old(doc).schema,
        final(doc).media == old(doc).media,
        final(doc).meta == old(doc).meta,
        final(doc).paragraphs == old(doc).paragraphs,
        ({
            let ps = old(doc).paragraphs_v();
            let p = find_para(ps, id@, 0);
            let ts = old(doc).translations@;
            &&& r == (p != -1)
            &&& p == -1 ==> final(doc).translations == old(doc).translations
            &&& p != -1 ==> tracks_map(final(doc).translations@) == tracks_map(ts).insert(
                lang@,
                lang_entries(ts, lang@).insert(
                    id@,
                    translation_of(
                        id@,
                        text@,
                        ps[p].sentences[find_sentence(ps[p].sentences, id@, 0)],
                    ),
                ),
            )
        }),
{
    let ghost ps = doc.paragraphs_v();
    let ghost ts = doc.translations@;
    let (p, i) = match find_cue(doc, id) {
        None => {
            return false;
        },
        Some(x) => x,
    };
    let sent = &doc.paragraphs[p].sentences[i];
    assert(ps[p as int].sentences[i as int] == sent@);
    let ghost sv = sent@;
    let group = TranslationGroup {
        id: owned(id),
        text: owned(text),
        source_words: collect_word_ids(sent),
        source_text: Some(sent.text.clone()),
    };
    assert(group@ == translation_of(id@, text@, sv));
    match last_track(&doc.translations, lang) {
        Some(t) => {
            let ghost old_entries = doc.translations@[t as int].entries@;
            let track = &mut doc.translations[t];
            let _ = remove_entry(&mut track.entries, id);
            let ghost mid = track.entries@;
            track.entries.push((owned(id), group));
            proof {
                lemma_entries_map_push(mid, track.entries@.last());
                assert(track.entries@ == mid.push(track.entries@.last()));
            }
            assert(entries_map(doc.translations@[t as int].entries@) =~= entries_map(old_entries).insert(
                id@,
                translation_of(id@, text@, sv),
            ));
            assert(doc.translations@ == ts.update(t as int, doc.translations@[t as int]));
            proof {
                lemma_tracks_map_update(ts, t as int, doc.translations@[t as int]);
            }
            assert(tracks_map(doc.translations@) =~= tracks_map(ts).insert(
                lang@,
                lang_entries(ts, lang@).insert(id@, translation_of(id@, text@, sv)),
            ));
        },
        None => {
            let mut entries: Vec<(String, TranslationGroup)> = Vec::new();
            entries.push((owned(id), group));
            proof {
                lemma_entries_map_push(Seq::empty(), entries@[0]);
                assert(entries@ =~= Seq::<(String, TranslationGroup)>::empty().push(entries@[0]));
            }
            let track = TranslationTrack { lang: owned(lang), entries };
            doc.translations.push(track);
            assert(doc.translations@.drop_last() =~= ts);
            assert(tracks_map(doc.translations@) =~= tracks_map(ts).insert(
                lang@,
                lang_entries(ts, lang@).insert(id@, translation_of(id@, text@, sv)),
            ));
        },
    }
    true
}

/// Every id sorts strictly before the next, so each occurs once.
pub open spec fn sorted_ids(s: Seq<Seq<char>>) -> bool {
    forall|i: int, j: int| 0 <= i < j < s.len() ==> seq_lt(#[trigger] s[i], #[trigger] s[j])
}

/// The hidden cue ids of a project, sorted (the stored `hidden.json`).
#[derive(Debug)]
pub struct HiddenFile {
    pub hidden: Vec<String>,
}

impl HiddenFile {
    pub open spec fn ids(&self) -> Seq<Seq<char>> {
        strings_view(self.hidden@)
    }

    pub open spec fn wf(&self) -> bool {
        sorted_ids(self.ids())
    }

    /// Whether the ids are strictly ascending, as `hide_cue` and `restore`
    /// ask of a hidden list read from disk.
    pub fn is_sorted(&self) -> (r: bool)
        ensures
            r == self.wf(),
    {
        let n = self.hidden.len();
        if n == 0 {
            return true;
        }
        let mut i: usize = 1;
        while i < n
            invariant
                n == self.hidden@.len(),
                1 <= i <= n,
                sorted_ids(self.ids().subrange(0, i as int)),
            decreases n - i,
        {
            let ghost s = self.ids();
            if !crate::text::str_lt(self.hidden[i - 1].as_str(), self.hidden[i].as_str()) {
                assert(s[i - 1] == self.hidden@[i - 1]@);
                assert(s[i as int] == self.hidden@[i as int]@);
                return false;
            }
            proof {
                let pre = s.subrange(0, i as int);
                let next = s.subrange(0, i + 1);
                assert forall|a: int, b: int| 0 <= a < b < next.len() implies seq_lt(
                    #[trigger] next[a],
                    #[trigger] next[b],
                ) by {
                    if b < i {
                        assert(next[a] == pre[a] && next[b] == pre[b]);
                    } else if a == i - 1 {
                        assert(next[a] == s[i - 1]);
                    } else {
                        assert(pre[a] == next[a] && pre[i - 1] == s[i - 1]);
                        crate::text::lemma_seq_lt_trans(s[a], s[i - 1], s[i as int]);
                    }
                }
            }
            i = i + 1;
        }
        assert(self.ids().subrange(0, n as int) =~= self.ids());
        true
    }

    /// Whether cue `id` is hidden.
    pub fn contains(&self, id: &str) -> (r: bool)
        ensures
            r == self.ids().contains(id@),
    {
        contains_id(&self.hidden, id)
    }
}

impl Default for HiddenFile {
    fn default() -> (r: Self)
        ensures
            r.hidden@.len() == 0,
    {
        HiddenFile { hidden: Vec::new() }
    }
}

/// Position where `id` sorts into `ids`: every id before it sorts before
/// `id`, and the one at it (if any) does not.
fn sorted_position(ids: &Vec<String>, id: &str) -> (r: usize)
    requires
        sorted_ids(strings_view(ids@)),
    ensures
        r <= ids@.len(),
        forall|j: int| 0 <= j < r ==> seq_lt(#[trigger] ids@[j]@, id@),
        r < ids@.len() ==> !seq_lt(ids@[r as int]@, id@),
{
    let mut i: usize = 0;
    while i < ids.len() && str_lt(ids[i].as_str(), id)
        invariant
            0 <= i <= ids@.len(),
            forall|j: int| 0 <= j < i ==> seq_lt(#[trigger] ids@[j]@, id@),
        decreases ids@.len() - i,
    {
        i = i + 1;
    }
    i
}

/// Hides cue `id`. Returns whether it was newly hidden.
pub fn hide_cue(hidden: &mut HiddenFile, id: &str) -> (r: bool)
    requires
        old(hidden).wf(),
    ensures
        final(hidden).wf(),
        r == !old(hidden).ids().contains(id@),
        forall|x: Seq<char>| #[trigger] final(hidden).ids().contains(x) <==> (old(hidden).ids().contains(x) || x == id@),
{
    let ghost before = hidden.ids();
    let i = sorted_position(&hidden.hidden, id);
    proof {
        assert forall|j: int| 0 <= j < i implies #[trigger] before[j] != id@ by {
            assert(seq_lt(hidden.hidden@[j]@, id@));
            lemma_seq_lt_irreflexive(id@);
        }
    }
    if i < hidden.hidden.len() && str_eq(hidden.hidden[i].as_str(), id) {
        assert(before[i as int] == id@);
        return false;
    }
    proof {
        assert forall|j: int| i <= j < before.len() implies seq_lt(id@, #[trigger] before[j]) by {
            lemma_seq_lt_total(before[i as int], id@);
            if j > i {
                lemma_seq_lt_trans(id@, before[i as int], before[j]);
            }
        }
        assert forall|j: int| 0 <= j < before.len() implies #[trigger] before[j] != id@ by {
            lemma_seq_lt_irreflexive(id@);
            if j >= i {
                assert(seq_lt(id@, before[j]));
            } else {
                assert(seq_lt(hidden.hidden@[j]@, id@));
            }
        }
    }
    let ghost old_vec = hidden.hidden@;
    hidden.hidden.insert(i, owned(id));
    proof {
        let after = hidden.ids();
        assert(after =~= before.insert(i as int, id@));
        assert forall|a: int, b: int| 0 <= a < b < after.len() implies seq_lt(
            #[trigger] after[a],
            #[trigger] after[b],
        ) by {
            if b < i {
                assert(seq_lt(before[a], before[b]));
            } else if a < i && b == i {
                assert(seq_lt(old_vec[a]@, id@));
            } else if a < i && b > i {
                assert(seq_lt(before[a], before[b - 1]));
            } else if a == i {
                assert(seq_lt(id@, before[b - 1]));
            } else {
                assert(seq_lt(before[a - 1], before[b - 1]));
            }
        }
        assert forall|x: Seq<char>| #[trigger] after.contains(x) <==> (before.contains(x) || x == id@) by {
            if after.contains(x) {
                let k = choose|k: int| 0 <= k < after.len() && after[k] == x;
                if k < i {
                    assert(before[k] == x);
                } else if k > i {
                    assert(before[k - 1] == x);
                }
            }
            if before.contains(x) {
                let k = choose|k: int| 0 <= k < before.len() && before[k] == x;
                if k < i {
                    assert(after[k] == x);
                } else {
                    assert(after[k + 1] == x);
                }
            }
            if x == id@ {
                assert(after[i as int] == x);
            }
        }
    }
    true
}

/// Shows cue `id` again. Returns whether it was hidden.
pub fn restore(hidden: &mut HiddenFile, id: &str) -> (r: bool)
    requires
        old(hidden).wf(),
    ensures
        final(hidden).wf(),
        r == old(hidden).ids().contains(id@),
        forall|x: Seq<char>| #[trigger] final(hidden).ids().contains(x) <==> (old(hidden).ids().contains(x) && x != id@),
{
    let ghost before = hidden.ids();
    let mut i: usize = 0;
    while i < hidden.hidden.len()
        invariant
            before == hidden.ids(),
            *hidden == *old(hidden),
            sorted_ids(before),
            0 <= i <= before.len(),
            forall|j: int| 0 <= j < i ==> #[trigger] before[j] != id@,
        decreases before.len() - i,
    {
        if str_eq(hidden.hidden[i].as_str(), id) {
            let _ = hidden.hidden.remove(i);
            proof {
                let after = hidden.ids();
                assert(after =~= before.remove(i as int));
                assert forall|a: int, b: int| 0 <= a < b < after.len() implies seq_lt(
                    #[trigger] after[a],
                    #[trigger] after[b],
                ) by {
                    if b < i {
                        assert(seq_lt(before[a], before[b]));
                    } else if a < i {
                        assert(seq_lt(before[a], before[b + 1]));
                    } else {
                        assert(seq_lt(before[a + 1], before[b + 1]));
                    }
                }
                assert forall|x: Seq<char>| #[trigger] after.contains(x) <==> (before.contains(x)
                    && x != id@) by {
                    if after.contains(x) {
                        let k = choose|k: int| 0 <= k < after.len() && after[k] == x;
                        lemma_seq_lt_irreflexive(id@);
                        if k < i {
                            assert(before[k] == x);
                            assert(seq_lt(before[k], before[i as int]));
                        } else {
                            assert(before[k + 1] == x);
                            assert(seq_lt(before[i as int], before[k + 1]));
                        }
                    }
                    if before.contains(x) && x != id@ {
                        let k = choose|k: int| 0 <= k < before.len() && before[k] == x;
                        if k < i {
                            assert(after[k] == x);
                        } else {
                            assert(k != i);
                            assert(after[k - 1] == x);
                        }
                    }
                }
                assert(before[i as int] == id@);
            }
            return true;
        }
        i = i + 1;
    }
    false
}

/// The rows whose flag in `keep` is set, in order.
pub open spec fn filter_rows(rows: Seq<SubtitleRowView>, keep: Seq<bool>) -> Seq<SubtitleRowView>
    decreases rows.len(),
{
    if rows.len() == 0 || keep.len() != rows.len() {
        Seq::empty()
    } else {
        let rest = filter_rows(rows.drop_last(), keep.drop_last());
        if keep.last() {
            rest.push(rows.last())
        } else {
            rest
        }
    }
}

/// Keeps the rows whose flag in `keep` is set.
pub fn keep_matching(rows: Vec<SubtitleRow>, keep: &Vec<bool>) -> (r: Vec<SubtitleRow>)
    requires
        keep@.len() == rows@.len(),
    ensures
        rows_view(r@) == filter_rows(rows_view(rows@), keep@),
{
    let ghost all = rows_view(rows@);
    let n = rows.len();
    let mut rest = rows;
    let mut out: Vec<SubtitleRow> = Vec::new();
    let mut i: usize = 0;
    while i < n
        invariant
            n == all.len(),
            keep@.len() == n,
            0 <= i <= n,
            rows_view(rest@) == all.subrange(i as int, n as int),
            rows_view(out@) == filter_rows(all.subrange(0, i as int), keep@.subrange(0, i as int)),
        decreases n - i,
    {
        assert(rows_view(rest@).len() == rest@.len());
        assert(rest@.len() == n - i);
        assert(rows_view(rest@)[0] == rest@[0]@);
        let ghost prev = rest@;
        let row = rest.remove(0);
        assert forall|k: int| 0 <= k < rest@.len() implies #[trigger] rows_view(rest@)[k] == all[i + 1
            + k] by {
            assert(rest@[k] == prev[k + 1]);
            assert(rows_view(prev)[k + 1] == prev[k + 1]@);
        }
        assert(row@ == all[i as int]);
        proof {
            assert(all.subrange(0, i + 1).drop_last() =~= all.subrange(0, i as int));
            assert(keep@.subrange(0, i + 1).drop_last() =~= keep@.subrange(0, i as int));
        }
        if keep[i] {
            let ghost before = out@;
            out.push(row);
            assert(rows_view(out@) =~= rows_view(before).push(row@));
        }
        i = i + 1;
        assert(rows_view(rest@) =~= all.subrange(i as int, n as int));
    }
    assert(all.subrange(0, n as int) =~= all);
    assert(keep@.subrange(0, n as int) =~= keep@);
    out
}

/// Which rows a search keeps: a regex match anywhere in the text, or the
/// lower-cased query inside the lower-cased text.
pub open spec fn search_hits(rows: Seq<SubtitleRowView>, query: Seq<char>, regex: bool) -> Seq<bool> {
    Seq::new(
        rows.len(),
        |i: int|
            if regex {
                regex_matches(query, rows[i].text)
            } else {
                contains_seq(lowercase_of(rows[i].text), lowercase_of(query))
            },
    )
}

/// Subtitles whose text matches `query`: a case-insensitive substring, or
/// a regular expression when `regex` is set. An invalid regular expression
/// is a schema error.
pub fn find(doc: &Doc, query: &str, regex: bool) -> (r: AppResult<Vec<SubtitleRow>>)
    ensures
        r is Ok <==> (!regex || regex_accepts(query@)),
        ({
            let all = rows_spec(doc.paragraphs_v(), doc.translations@, Seq::empty(), None);
            r matches Ok(v) ==> rows_view(v@) == filter_rows(all, search_hits(all, query@, regex))
        }),
        r matches Err(e) ==> (e matches AppError::Schema(m) && m@.len() >= 7 && m@.subrange(0, 7)
            == "regex: "@),
{
    let no_hidden: Vec<String> = Vec::new();
    assert(strings_view(no_hidden@) =~= Seq::empty());
    let rows = list(doc, &no_hidden, None);
    let ghost all = rows_view(rows@);
    let mut keep: Vec<bool> = Vec::new();
    if regex {
        let pattern = match Pattern::compile(query) {
            Ok(p) => p,
            Err(e) => {
                let mut m = String::new();
                push_str(&mut m, "regex: ");
                push_str(&mut m, regex_error_message(&e).as_str());
                proof {
                    reveal_strlit("regex: ");
                    assert(m@.subrange(0, 7) =~= "regex: "@);
                }
                return Err(AppError::Schema(m));
            },
        };
        let mut i: usize = 0;
        while i < rows.len()
            invariant
                all == rows_view(rows@),
                pattern.source() == query@,
                0 <= i <= all.len(),
                keep@ == search_hits(all, query@, true).subrange(0, i as int),
            decreases all.len() - i,
        {
            assert(all[i as int] == rows@[i as int]@);
            keep.push(pattern.is_match(rows[i].text.as_str()));
            i = i + 1;
            assert(keep@ =~= search_hits(all, query@, true).subrange(0, i as int));
        }
    } else {
        let q = lowercase(query);
        let mut i: usize = 0;
        while i < rows.len()
            invariant
                all == rows_view(rows@),
                q@ == lowercase_of(query@),
                0 <= i <= all.len(),
                keep@ == search_hits(all, query@, false).subrange(0, i as int),
            decreases all.len() - i,
        {
            assert(all[i as int] == rows@[i as int]@);
            let t = lowercase(rows[i].text.as_str());
            keep.push(contains_text(t.as_str(), q.as_str()));
            i = i + 1;
            assert(keep@ =~= search_hits(all, query@, false).subrange(0, i as int));
        }
    }
    assert(keep@ =~= search_hits(all, query@, regex));
    Ok(keep_matching(rows, &keep))
}

/// In a sorted id list, an id other than the first occurs after it.
pub proof fn lemma_sorted_drop_first(a: Seq<Seq<char>>, x: Seq<char>)
    requires
        sorted_ids(a),
        a.len() > 0,
    ensures
        sorted_ids(a.drop_first()),
        a.drop_first().contains(x) <==> (a.contains(x) && x != a[0]),
{
    if a.contains(x) && x != a[0] {
        let k = choose|k: int| 0 <= k < a.len() && a[k] == x;
        assert(a.drop_first()[k - 1] == x);
    }
    if a.drop_first().contains(x) {
        let k = choose|k: int| 0 <= k < a.len() - 1 && a.drop_first()[k] == x;
        assert(a[k + 1] == x);
        assert(seq_lt(a[0], a[k + 1]));
        lemma_seq_lt_irreflexive(x);
    }
    assert forall|i: int, j: int| 0 <= i < j < a.drop_first().len() implies seq_lt(
        #[trigger] a.drop_first()[i],
        #[trigger] a.drop_first()[j],
    ) by {
        assert(seq_lt(a[i + 1], a[j + 1]));
    }
}

/// Two sorted id lists with the same ids are the same list.
pub proof fn lemma_sorted_ids_unique(a: Seq<Seq<char>>, c: Seq<Seq<char>>)
    requires
        sorted_ids(a),
        sorted_ids(c),
        forall|x: Seq<char>| a.contains(x) <==> c.contains(x),
    ensures
        a == c,
    decreases a.len(),
{
    if a.len() == 0 {
        if c.len() > 0 {
            assert(c.contains(c[0]));
        }
        assert(a =~= c);
    } else {
        assert(a.contains(a[0]));
        assert(c.contains(a[0]));
        let k = choose|k: int| 0 <= k < c.len() && c[k] == a[0];
        assert(c.contains(c[0]));
        let j = choose|j: int| 0 <= j < a.len() && a[j] == c[0];
        if k > 0 {
            assert(seq_lt(c[0], c[k]));
            if j > 0 {
                assert(seq_lt(a[0], a[j]));
                lemma_seq_lt_total(a[0], c[0]);
            } else {
                lemma_seq_lt_irreflexive(c[0]);
            }
        }
        assert(a[0] == c[0]);
        assert forall|x: Seq<char>| a.drop_first().contains(x) <==> c.drop_first().contains(x) by {
            lemma_sorted_drop_first(a, x);
            lemma_sorted_drop_first(c, x);
        }
        lemma_sorted_drop_first(a, a[0]);
        lemma_sorted_drop_first(c, c[0]);
        lemma_sorted_ids_unique(a.drop_first(), c.drop_first());
        assert(a =~= seq![a[0]] + a.drop_first());
        assert(c =~= seq![c[0]] + c.drop_first());
    }
}

/// Hiding a cue that was shown and then showing it again gives back the
/// same hidden list: `b` is `a` after `hide_cue(id)` and `c` is `b` after
/// `restore(id)` (as their contracts state them).
pub proof fn law_restore_undoes_hide(
    a: Seq<Seq<char>>,
    b: Seq<Seq<char>>,
    c: Seq<Seq<char>>,
    id: Seq<char>,
)
    requires
        sorted_ids(a),
        sorted_ids(b),
        sorted_ids(c),
        !a.contains(id),
        forall|x: Seq<char>| #[trigger] b.contains(x) <==> (a.contains(x) || x == id),
        forall|x: Seq<char>| #[trigger] c.contains(x) <==> (b.contains(x) && x != id),
    ensures
        c == a,
{
    assert forall|x: Seq<char>| a.contains(x) <==> c.contains(x) by {
        assert(c.contains(x) <==> (b.contains(x) && x != id));
        assert(b.contains(x) <==> (a.contains(x) || x == id));
    }
    lemma_sorted_ids_unique(a, c);
}

/// The stored translation of cue `id` into `lang`, if any.
pub fn translation_text(doc: &Doc, lang: &str, id: &str) -> (r: Option<String>)
    ensures
        ({
            let m = tracks_map(doc.translations@);
            match r {
                Some(t) => m.contains_key(lang@) && m[lang@].contains_key(id@) && t@
                    == m[lang@][id@].text,
                None => !(m.contains_key(lang@) && m[lang@].contains_key(id@)),
            }
        }),
{
    match last_track(&doc.translations, lang) {
        None => None,
        Some(t) => match lookup_entry(&doc.translations[t].entries, id) {
            Some(g) => Some(g.text.clone()),
            None => None,
        },
    }
}

/// Reading a translation back after setting it gives the text that was set,
/// and translations of other cues or languages are unchanged: `after` is the
/// translation map once `set_translation` stored `g` for cue `id` in `lang`.
pub proof fn law_translation_read_after_write(
    before: Map<Seq<char>, Map<Seq<char>, TranslationGroupView>>,
    after: Map<Seq<char>, Map<Seq<char>, TranslationGroupView>>,
    lang: Seq<char>,
    id: Seq<char>,
    g: TranslationGroupView,
    other_lang: Seq<char>,
    other_id: Seq<char>,
)
    requires
        after == before.insert(
            lang,
            (if before.contains_key(lang) {
                before[lang]
            } else {
                Map::empty()
            }).insert(id, g),
        ),
        other_lang != lang || other_id != id,
    ensures
        after.contains_key(lang) && after[lang].contains_key(id) && after[lang][id] == g,
        (before.contains_key(other_lang) && before[other_lang].contains_key(other_id)) ==> (
        after.contains_key(other_lang) && after[other_lang].contains_key(other_id)
            && after[other_lang][other_id] == before[other_lang][other_id]),
{
}

/// The track at `t` is the last one of its language.
pub open spec fn last_of_lang(ts: Seq<TranslationTrack>, t: int) -> bool {
    forall|j: int| t < j < ts.len() ==> #[trigger] ts[j].lang@ != ts[t].lang@
}

/// The entry at `k` is the last one with its key.
pub open spec fn last_of_key(es: Seq<(String, TranslationGroup)>, k: int) -> bool {
    forall|j: int| k < j < es.len() ==> #[trigger] es[j].0@ != es[k].0@
}

/// A language is in the map exactly when some track is the last of it, and
/// the map then holds that track's entries.
pub proof fn lemma_tracks_map_last(ts: Seq<TranslationTrack>, l: Seq<char>)
    ensures
        tracks_map(ts).contains_key(l) <==> exists|t: int|
            0 <= t < ts.len() && #[trigger] ts[t].lang@ == l && last_of_lang(ts, t),
        forall|t: int|
            0 <= t < ts.len() && #[trigger] ts[t].lang@ == l && last_of_lang(ts, t) ==> tracks_map(ts)[l]
                == entries_map(ts[t].entries@),
    decreases ts.len(),
{
    if ts.len() > 0 {
        let pre = ts.drop_last();
        lemma_tracks_map_last(pre, l);
        let n = ts.len() - 1;
        if ts[n].lang@ == l {
            assert(last_of_lang(ts, n));
            assert forall|t: int|
                0 <= t < ts.len() && #[trigger] ts[t].lang@ == l && last_of_lang(ts, t) implies tracks_map(
                ts,
            )[l] == entries_map(ts[t].entries@) by {
                if t < n {
                    assert(ts[n].lang@ == ts[t].lang@);
                }
            }
        } else {
            if tracks_map(pre).contains_key(l) {
                let t = choose|t: int| 0 <= t < pre.len() && #[trigger] pre[t].lang@ == l && last_of_lang(pre, t);
                assert(ts[t] == pre[t]);
                assert forall|j: int| t < j < ts.len() implies #[trigger] ts[j].lang@ != ts[t].lang@ by {
                    if j < n {
                        assert(ts[j] == pre[j]);
                    }
                }
            }
            if exists|t: int| 0 <= t < ts.len() && #[trigger] ts[t].lang@ == l && last_of_lang(ts, t) {
                let t = choose|t: int| 0 <= t < ts.len() && #[trigger] ts[t].lang@ == l && last_of_lang(ts, t);
                assert(t < n);
                assert(pre[t] == ts[t]);
                assert forall|j: int| t < j < pre.len() implies #[trigger] pre[j].lang@ != pre[t].lang@ by {
                    assert(pre[j] == ts[j]);
                }
            }
            assert forall|t: int|
                0 <= t < ts.len() && #[trigger] ts[t].lang@ == l && last_of_lang(ts, t) implies tracks_map(
                ts,
            )[l] == entries_map(ts[t].entries@) by {
                assert(pre[t] == ts[t]);
                assert forall|j: int| t < j < pre.len() implies #[trigger] pre[j].lang@ != pre[t].lang@ by {
                    assert(pre[j] == ts[j]);
                }
            }
        }
    }
}

/// A key is in the map exactly when some entry is the last with it, and the
/// map then holds that entry's group.
pub proof fn lemma_entries_map_last(es: Seq<(String, TranslationGroup)>, key: Seq<char>)
    ensures
        entries_map(es).contains_key(key) <==> exists|k: int|
            0 <= k < es.len() && #[trigger] es[k].0@ == key && last_of_key(es, k),
        forall|k: int|
            0 <= k < es.len() && #[trigger] es[k].0@ == key && last_of_key(es, k) ==> entries_map(es)[key]
                == es[k].1@,
    decreases es.len(),
{
    if es.len() > 0 {
        let pre = es.drop_last();
        lemma_entries_map_last(pre, key);
        let n = es.len() - 1;
        if es[n].0@ == key {
            assert(last_of_key(es, n));
            assert forall|k: int|
                0 <= k < es.len() && #[trigger] es[k].0@ == key && last_of_key(es, k) implies entries_map(
                es,
            )[key] == es[k].1@ by {
                if k < n {
                    assert(es[n].0@ == es[k].0@);
                }
            }
        } else {
            if entries_map(pre).contains_key(key) {
                let k = choose|k: int| 0 <= k < pre.len() && #[trigger] pre[k].0@ == key && last_of_key(pre, k);
                assert(es[k] == pre[k]);
                assert forall|j: int| k < j < es.len() implies #[trigger] es[j].0@ != es[k].0@ by {
                    if j < n {
                        assert(es[j] == pre[j]);
                    }
                }
            }
            if exists|k: int| 0 <= k < es.len() && #[trigger] es[k].0@ == key && last_of_key(es, k) {
                let k = choose|k: int| 0 <= k < es.len() && #[trigger] es[k].0@ == key && last_of_key(es, k);
                assert(k < n);
                assert(pre[k] == es[k]);
                assert forall|j: int| k < j < pre.len() implies #[trigger] pre[j].0@ != pre[k].0@ by {
                    assert(pre[j] == es[j]);
                }
            }
            assert forall|k: int|
                0 <= k < es.len() && #[trigger] es[k].0@ == key && last_of_key(es, k) implies entries_map(
                es,
            )[key] == es[k].1@ by {
                assert(pre[k] == es[k]);
                assert forall|j: int| k < j < pre.len() implies #[trigger] pre[j].0@ != pre[k].0@ by {
                    assert(pre[j] == es[j]);
                }
            }
        }
    }
}


/// The subtitle rows are the document's cues in order, one each: row `k`
/// is cue `k`, and a cue with timed words spans them, from the start of
/// its first word to the end of its last; a cue without words is at 0.
pub proof fn law_rows_span_their_cues(
    ps: Seq<ParagraphView>,
    ts: Seq<TranslationTrack>,
    hidden: Seq<Seq<char>>,
    lang: Option<Seq<char>>,
)
    ensures
        rows_spec(ps, ts, hidden, lang).len() == crate::doc::paragraph_sentences(ps).len(),
        forall|k: int|
            0 <= k < crate::doc::paragraph_sentences(ps).len() ==> {
                let row = #[trigger] rows_spec(ps, ts, hidden, lang)[k];
                let cue = crate::doc::paragraph_sentences(ps)[k];
                &&& row.id == cue.id
                &&& row.hidden == hidden.contains(cue.id)
                &&& cue.words.len() > 0 ==> row.start == cue.words[0].start && row.end
                    == cue.words[cue.words.len() - 1].end
                &&& cue.words.len() == 0 ==> row.start == 0 && row.end == 0
            },
    decreases ps.len(),
{
    if ps.len() > 0 {
        law_rows_span_their_cues(ps.drop_last(), ts, hidden, lang);
        let pre = crate::doc::paragraph_sentences(ps.drop_last());
        let rows = rows_spec(ps, ts, hidden, lang);
        let ss = crate::doc::paragraph_sentences(ps);
        assert forall|k: int| 0 <= k < ss.len() implies {
            let row = #[trigger] rows[k];
            let cue = ss[k];
            &&& row.id == cue.id
            &&& row.hidden == hidden.contains(cue.id)
            &&& cue.words.len() > 0 ==> row.start == cue.words[0].start && row.end
                == cue.words[cue.words.len() - 1].end
            &&& cue.words.len() == 0 ==> row.start == 0 && row.end == 0
        } by {
            if k < pre.len() {
                assert(rows[k] == rows_spec(ps.drop_last(), ts, hidden, lang)[k]);
                assert(ss[k] == pre[k]);
            } else {
                assert(ss[k] == ps.last().sentences[k - pre.len()]);
            }
        }
    }
}
} // verus!
