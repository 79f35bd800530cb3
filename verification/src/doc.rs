//! The project document: paragraphs of sentences of timed words, plus
//! translation tracks keyed by language and sentence id.
//!
//! Times are carried as the IEEE-754 bit pattern of a `f64` number of
//! seconds (`f64::to_bits`): the structural logic here moves timing around
//! unchanged and never computes with it.

use vstd::prelude::*;

verus! {

/// A timed word. `start` and `end` are `f64::to_bits` of seconds.
#[derive(Debug)]
pub struct Word {
    pub id: String,
    pub text: String,
    pub start: u64,
    pub end: u64,
}

pub struct WordView {
    pub id: Seq<char>,
    pub text: Seq<char>,
    pub start: u64,
    pub end: u64,
}

impl View for Word {
    type V = WordView;

    open spec fn view(&self) -> WordView {
        WordView { id: self.id@, text: self.text@, start: self.start, end: self.end }
    }
}

impl Clone for Word {
    fn clone(&self) -> (r: Self)
        ensures
            r@ == self@,
    {
        Word { id: self.id.clone(), text: self.text.clone(), start: self.start, end: self.end }
    }
}

pub open spec fn words_view(s: Seq<Word>) -> Seq<WordView> {
    Seq::new(s.len(), |i: int| s[i]@)
}

/// A sentence: one subtitle cue.
#[derive(Debug)]
pub struct Sentence {
    pub id: String,
    pub text: String,
    pub words: Vec<Word>,
}

pub struct SentenceView {
    pub id: Seq<char>,
    pub text: Seq<char>,
    pub words: Seq<WordView>,
}

impl View for Sentence {
    type V = SentenceView;

    open spec fn view(&self) -> SentenceView {
        SentenceView { id: self.id@, text: self.text@, words: words_view(self.words@) }
    }
}

pub open spec fn sentences_view(s: Seq<Sentence>) -> Seq<SentenceView> {
    Seq::new(s.len(), |i: int| s[i]@)
}

pub open spec fn opt_str_view(o: Option<String>) -> Option<Seq<char>> {
    match o {
        Some(s) => Some(s@),
        None => None,
    }
}

pub fn clone_opt_string(o: &Option<String>) -> (r: Option<String>)
    ensures
        opt_str_view(r) == opt_str_view(*o),
{
    match o {
        Some(s) => Some(s.clone()),
        None => None,
    }
}

/// A paragraph: consecutive sentences of one speaker.
#[derive(Debug)]
pub struct Paragraph {
    pub id: u32,
    pub speaker: Option<String>,
    pub sentences: Vec<Sentence>,
}

pub struct ParagraphView {
    pub id: u32,
    pub speaker: Option<Seq<char>>,
    pub sentences: Seq<SentenceView>,
}

impl View for Paragraph {
    type V = ParagraphView;

    open spec fn view(&self) -> ParagraphView {
        ParagraphView {
            id: self.id,
            speaker: opt_str_view(self.speaker),
            sentences: sentences_view(self.sentences@),
        }
    }
}

pub open spec fn paragraphs_view(s: Seq<Paragraph>) -> Seq<ParagraphView> {
    Seq::new(s.len(), |i: int| s[i]@)
}

/// A translated cue.
#[derive(Debug)]
pub struct TranslationGroup {
    pub id: String,
    pub text: String,
    /// Ids of the source words the translation covers.
    pub source_words: Vec<String>,
    /// Source sentence text when it was translated; a later edit of the
    /// source makes the translation stale.
    pub source_text: Option<String>,
}

pub open spec fn strings_view(v: Seq<String>) -> Seq<Seq<char>> {
    Seq::new(v.len(), |i: int| v[i]@)
}

pub struct TranslationGroupView {
    pub id: Seq<char>,
    pub text: Seq<char>,
    pub source_words: Seq<Seq<char>>,
    pub source_text: Option<Seq<char>>,
}

impl View for TranslationGroup {
    type V = TranslationGroupView;

    open spec fn view(&self) -> TranslationGroupView {
        TranslationGroupView {
            id: self.id@,
            text: self.text@,
            source_words: strings_view(self.source_words@),
            source_text: opt_str_view(self.source_text),
        }
    }
}

/// One language's translations, keyed by sentence id. Keys are unique.
#[derive(Debug)]
pub struct TranslationTrack {
    pub lang: String,
    pub entries: Vec<(String, TranslationGroup)>,
}

pub open spec fn entries_view(s: Seq<(String, TranslationGroup)>) -> Seq<(Seq<char>, TranslationGroupView)> {
    Seq::new(s.len(), |i: int| (s[i].0@, s[i].1@))
}

/// The media a project transcribes.
#[derive(Debug)]
pub struct MediaRef {
    pub path: String,
    /// `f64::to_bits` of the duration in seconds.
    pub duration_seconds: u64,
    pub sample_rate: Option<u32>,
    pub channels: Option<u32>,
}

#[derive(Debug)]
pub struct Meta {
    pub title: String,
    pub description: String,
    pub language: Option<String>,
    /// RFC 3339 creation time.
    pub created_at: String,
    /// RFC 3339 modification time.
    pub updated_at: String,
}

#[derive(Debug)]
pub struct Doc {
    pub id: String,
    pub schema: u32,
    pub media: MediaRef,
    pub meta: Meta,
    pub paragraphs: Vec<Paragraph>,
    pub translations: Vec<TranslationTrack>,
}

/// Every word of a list of sentences, in order.
pub open spec fn sentence_words(s: Seq<SentenceView>) -> Seq<WordView>
    decreases s.len(),
{
    if s.len() == 0 {
        Seq::empty()
    } else {
        sentence_words(s.drop_last()) + s.last().words
    }
}

/// Every word of a list of paragraphs, in order.
pub open spec fn paragraph_words(p: Seq<ParagraphView>) -> Seq<WordView>
    decreases p.len(),
{
    if p.len() == 0 {
        Seq::empty()
    } else {
        paragraph_words(p.drop_last()) + sentence_words(p.last().sentences)
    }
}

/// Every sentence of a list of paragraphs, in order.
pub open spec fn paragraph_sentences(p: Seq<ParagraphView>) -> Seq<SentenceView>
    decreases p.len(),
{
    if p.len() == 0 {
        Seq::empty()
    } else {
        paragraph_sentences(p.drop_last()) + p.last().sentences
    }
}

pub proof fn lemma_sentence_words_push(s: Seq<SentenceView>, x: SentenceView)
    ensures
        sentence_words(s.push(x)) == sentence_words(s) + x.words,
{
    assert(s.push(x).drop_last() =~= s);
}

pub proof fn lemma_paragraph_words_push(p: Seq<ParagraphView>, x: ParagraphView)
    ensures
        paragraph_words(p.push(x)) == paragraph_words(p) + sentence_words(x.sentences),
        paragraph_sentences(p.push(x)) == paragraph_sentences(p) + x.sentences,
{
    assert(p.push(x).drop_last() =~= p);
}

pub open spec fn refs_view(s: Seq<&Word>) -> Seq<WordView> {
    Seq::new(s.len(), |i: int| s[i]@)
}

impl Doc {
    pub open spec fn paragraphs_v(&self) -> Seq<ParagraphView> {
        paragraphs_view(self.paragraphs@)
    }

    /// Every word of the document, in order.
    pub open spec fn words_v(&self) -> Seq<WordView> {
        paragraph_words(self.paragraphs_v())
    }

    /// Every sentence of the document, in order.
    pub open spec fn sentences_v(&self) -> Seq<SentenceView> {
        paragraph_sentences(self.paragraphs_v())
    }

    /// All words, in order, for stats and single-pass review.
    pub fn all_words(&self) -> (r: Vec<&Word>)
        ensures
            refs_view(r@) == self.words_v(),
    {
        let mut out: Vec<&Word> = Vec::new();
        let mut p: usize = 0;
        while p < self.paragraphs.len()
            invariant
                0 <= p <= self.paragraphs@.len(),
                refs_view(out@) == paragraph_words(
                    self.paragraphs_v().subrange(0, p as int),
                ),
            decreases self.paragraphs@.len() - p,
        {
            let para = &self.paragraphs[p];
            let ghost before = refs_view(out@);
            let mut s: usize = 0;
            while s < para.sentences.len()
                invariant
                    0 <= s <= para.sentences@.len(),
                    refs_view(out@) == before + sentence_words(
                        sentences_view(para.sentences@).subrange(0, s as int),
                    ),
                decreases para.sentences@.len() - s,
            {
                let sent = &para.sentences[s];
                let ghost mid = refs_view(out@);
                let mut w: usize = 0;
                while w < sent.words.len()
                    invariant
                        0 <= w <= sent.words@.len(),
                        refs_view(out@) == mid + words_view(
                            sent.words@,
                        ).subrange(0, w as int),
                    decreases sent.words@.len() - w,
                {
                    let ghost prev = out@;
                    let wr = &sent.words[w];
                    out.push(wr);
                    assert(out@ == prev.push(wr));
                    assert(refs_view(out@) =~= refs_view(prev).push(wr@));
                    assert(words_view(sent.words@).subrange(0, w + 1) =~= words_view(
                        sent.words@,
                    ).subrange(0, w as int).push(wr@));
                    w = w + 1;
                    assert(refs_view(out@) =~= mid + words_view(
                        sent.words@,
                    ).subrange(0, w as int));
                }
                assert(words_view(sent.words@).subrange(0, w as int) =~= words_view(
                    sent.words@,
                ));
                proof {
                    let sv = sentences_view(para.sentences@);
                    assert(sv.subrange(0, s + 1) =~= sv.subrange(0, s as int).push(sv[s as int]));
                    lemma_sentence_words_push(sv.subrange(0, s as int), sv[s as int]);
                }
                s = s + 1;
            }
            proof {
                let sv = sentences_view(para.sentences@);
                assert(sv.subrange(0, s as int) =~= sv);
                let pv = self.paragraphs_v();
                assert(pv.subrange(0, p + 1) =~= pv.subrange(0, p as int).push(pv[p as int]));
                lemma_paragraph_words_push(pv.subrange(0, p as int), pv[p as int]);
            }
            p = p + 1;
        }
        assert(self.paragraphs_v().subrange(0, p as int) =~= self.paragraphs_v());
        out
    }
}

/// The map a list of translation entries stands for; a later entry with the
/// same key wins.
pub open spec fn entries_map(s: Seq<(String, TranslationGroup)>) -> Map<Seq<char>, TranslationGroupView>
    decreases s.len(),
{
    if s.len() == 0 {
        Map::empty()
    } else {
        entries_map(s.drop_last()).insert(s.last().0@, s.last().1@)
    }
}

pub proof fn lemma_entries_map_push(s: Seq<(String, TranslationGroup)>, e: (String, TranslationGroup))
    ensures
        entries_map(s.push(e)) == entries_map(s).insert(e.0@, e.1@),
{
    assert(s.push(e).drop_last() =~= s);
}

/// Removes every entry with key `key`, returning the group the map held.
pub fn remove_entry(entries: &mut Vec<(String, TranslationGroup)>, key: &str) -> (r: Option<
    TranslationGroup,
>)
    ensures
        entries_map(final(entries)@) == entries_map(old(entries)@).remove(key@),
        r is Some <==> entries_map(old(entries)@).contains_key(key@),
        r matches Some(g) ==> g@ == entries_map(old(entries)@)[key@],
{
    let mut rest: Vec<(String, TranslationGroup)> = Vec::new();
    std::mem::swap(&mut rest, entries);
    let ghost all = rest@;
    let total = rest.len();
    let mut found: Option<TranslationGroup> = None;
    let mut i: usize = 0;
    while rest.len() > 0
        invariant
            rest@ == all.subrange(i as int, all.len() as int),
            total == all.len(),
            i <= all.len(),
            entries_map(entries@) == entries_map(all.subrange(0, i as int)).remove(key@),
            found is Some <==> entries_map(all.subrange(0, i as int)).contains_key(key@),
            found matches Some(g) ==> g@ == entries_map(all.subrange(0, i as int))[key@],
        decreases rest@.len(),
    {
        let e = rest.remove(0);
        let ghost prefix = all.subrange(0, i as int);
        assert(all.subrange(0, i + 1) =~= prefix.push(e));
        proof {
            lemma_entries_map_push(prefix, e);
        }
        if crate::text::str_eq(e.0.as_str(), key) {
            found = Some(e.1);
            assert(entries_map(entries@) =~= entries_map(all.subrange(0, i + 1)).remove(key@));
        } else {
            let ghost before = entries@;
            entries.push(e);
            proof {
                lemma_entries_map_push(before, e);
            }
            assert(entries_map(entries@) =~= entries_map(all.subrange(0, i + 1)).remove(key@));
        }
        i = i + 1;
        assert(rest@ =~= all.subrange(i as int, all.len() as int));
    }
    assert(all.subrange(0, i as int) =~= all);
    found
}

/// A copy of a list of strings.
pub fn copy_strings(v: &Vec<String>) -> (r: Vec<String>)
    ensures
        strings_view(r@) == strings_view(v@),
{
    let mut out: Vec<String> = Vec::new();
    let mut i: usize = 0;
    while i < v.len()
        invariant
            0 <= i <= v@.len(),
            strings_view(out@) == strings_view(v@).subrange(0, i as int),
        decreases v@.len() - i,
    {
        let ghost before = out@;
        let c = v[i].clone();
        out.push(c);
        assert(strings_view(out@) =~= strings_view(before).push(c@));
        i = i + 1;
        assert(strings_view(out@) =~= strings_view(v@).subrange(0, i as int));
    }
    assert(strings_view(v@).subrange(0, i as int) =~= strings_view(v@));
    out
}

/// A copy of a list of words.
pub fn copy_words(v: &Vec<Word>) -> (r: Vec<Word>)
    ensures
        words_view(r@) == words_view(v@),
{
    let mut out: Vec<Word> = Vec::new();
    let mut i: usize = 0;
    while i < v.len()
        invariant
            0 <= i <= v@.len(),
            words_view(out@) == words_view(v@).subrange(0, i as int),
        decreases v@.len() - i,
    {
        let ghost before = out@;
        let c = v[i].clone();
        out.push(c);
        assert(words_view(out@) =~= words_view(before).push(c@));
        i = i + 1;
        assert(words_view(out@) =~= words_view(v@).subrange(0, i as int));
    }
    assert(words_view(v@).subrange(0, i as int) =~= words_view(v@));
    out
}

impl Clone for TranslationGroup {
    fn clone(&self) -> (r: Self)
        ensures
            r@ == self@,
    {
        TranslationGroup {
            id: self.id.clone(),
            text: self.text.clone(),
            source_words: copy_strings(&self.source_words),
            source_text: clone_opt_string(&self.source_text),
        }
    }
}

/// The language and entries of each translation track.
pub open spec fn tracks_view(ts: Seq<TranslationTrack>) -> Seq<(Seq<char>, Seq<(Seq<char>, TranslationGroupView)>)> {
    Seq::new(ts.len(), |i: int| (ts[i].lang@, entries_view(ts[i].entries@)))
}

/// A copy of the translation tracks.
pub fn copy_tracks(ts: &Vec<TranslationTrack>) -> (r: Vec<TranslationTrack>)
    ensures
        tracks_view(r@) == tracks_view(ts@),
{
    let mut out: Vec<TranslationTrack> = Vec::new();
    let mut t: usize = 0;
    while t < ts.len()
        invariant
            0 <= t <= ts@.len(),
            tracks_view(out@) == tracks_view(ts@).subrange(0, t as int),
        decreases ts@.len() - t,
    {
        let track = &ts[t];
        let mut entries: Vec<(String, TranslationGroup)> = Vec::new();
        let mut e: usize = 0;
        while e < track.entries.len()
            invariant
                0 <= e <= track.entries@.len(),
                entries_view(entries@) == entries_view(track.entries@).subrange(0, e as int),
            decreases track.entries@.len() - e,
        {
            let ghost before = entries@;
            let k = track.entries[e].0.clone();
            let g = track.entries[e].1.clone();
            entries.push((k, g));
            assert(entries_view(entries@) =~= entries_view(before).push((k@, g@)));
            e = e + 1;
            assert(entries_view(entries@) =~= entries_view(track.entries@).subrange(0, e as int));
        }
        assert(entries_view(track.entries@).subrange(0, e as int) =~= entries_view(track.entries@));
        let ghost before = out@;
        let copy = TranslationTrack { lang: track.lang.clone(), entries };
        out.push(copy);
        assert(tracks_view(out@) =~= tracks_view(before).push((copy.lang@, entries_view(copy.entries@))));
        t = t + 1;
        assert(tracks_view(out@) =~= tracks_view(ts@).subrange(0, t as int));
    }
    assert(tracks_view(ts@).subrange(0, t as int) =~= tracks_view(ts@));
    out
}

/// `a` and `b` hold the same media reference.
pub open spec fn same_media(a: MediaRef, b: MediaRef) -> bool {
    &&& a.path@ == b.path@
    &&& a.duration_seconds == b.duration_seconds
    &&& a.sample_rate == b.sample_rate
    &&& a.channels == b.channels
}

pub fn copy_media(m: &MediaRef) -> (r: MediaRef)
    ensures
        same_media(r, *m),
{
    MediaRef {
        path: m.path.clone(),
        duration_seconds: m.duration_seconds,
        sample_rate: m.sample_rate,
        channels: m.channels,
    }
}

/// `a` and `b` hold the same metadata, but for the language.
pub open spec fn same_meta_but_language(a: Meta, b: Meta) -> bool {
    &&& a.title@ == b.title@
    &&& a.description@ == b.description@
    &&& a.created_at@ == b.created_at@
    &&& a.updated_at@ == b.updated_at@
}

} // verus!
