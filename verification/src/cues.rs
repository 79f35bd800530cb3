//! The flat cue list: one row per sentence, and building a document back
//! from such a list (consecutive cues of one speaker form a paragraph).

use vstd::prelude::*;

use crate::doc::{
    entries_map, lemma_entries_map_push, opt_str_view, paragraphs_view, sentences_view, strings_view,
    words_view, Doc, MediaRef, Meta, Paragraph, ParagraphView, Sentence, SentenceView,
    TranslationGroup, TranslationGroupView, TranslationTrack, Word, WordView,
};
use crate::text::{owned, push_str};

verus! {

/// One cue of the flat list. Times are whole milliseconds.
#[derive(Debug)]
pub struct Cue {
    pub id: String,
    pub start_ms: i64,
    pub end_ms: i64,
    pub text: String,
    pub translation: Option<String>,
    pub speaker: Option<String>,
    pub hidden: bool,
}

/// The sentence a cue becomes: one word `<id>-w0` spanning the cue, with
/// the given start and end (`f64` bits of seconds).
pub open spec fn cue_sentence(c: Cue, start: u64, end: u64) -> SentenceView {
    SentenceView {
        id: c.id@,
        text: c.text@,
        words: seq![WordView { id: c.id@ + "-w0"@, text: c.text@, start: start, end: end }],
    }
}

/// The paragraphs of a cue list: a cue joins the paragraph before it when
/// that paragraph has the same speaker, else starts the next paragraph,
/// numbered from 1.
pub open spec fn cue_paragraphs(cues: Seq<Cue>, times: Seq<(u64, u64)>) -> Seq<ParagraphView>
    decreases cues.len(),
{
    if cues.len() == 0 {
        Seq::empty()
    } else {
        let k = cues.len() - 1;
        let ps = cue_paragraphs(cues.drop_last(), times);
        let c = cues.last();
        let s = cue_sentence(c, times[k].0, times[k].1);
        if ps.len() > 0 && ps.last().speaker == opt_str_view(c.speaker) {
            ps.update(
                ps.len() - 1,
                ParagraphView {
                    id: ps.last().id,
                    speaker: ps.last().speaker,
                    sentences: ps.last().sentences.push(s),
                },
            )
        } else {
            ps.push(ParagraphView { id: (ps.len() + 1) as u32, speaker: opt_str_view(c.speaker), sentences: seq![s] })
        }
    }
}

pub proof fn lemma_cue_paragraphs_len(cues: Seq<Cue>, times: Seq<(u64, u64)>)
    ensures
        cue_paragraphs(cues, times).len() <= cues.len(),
    decreases cues.len(),
{
    if cues.len() > 0 {
        lemma_cue_paragraphs_len(cues.drop_last(), times);
    }
}

/// The translated group a cue with a non-empty translation contributes.
pub open spec fn cue_translation(c: Cue) -> TranslationGroupView {
    TranslationGroupView {
        id: c.id@,
        text: c.translation->0@,
        source_words: seq![c.id@ + "-w0"@],
        source_text: Some(c.text@),
    }
}

/// The translations of a cue list, later cues winning.
pub open spec fn cue_translations(cues: Seq<Cue>) -> Map<Seq<char>, TranslationGroupView>
    decreases cues.len(),
{
    if cues.len() == 0 {
        Map::empty()
    } else {
        let m = cue_translations(cues.drop_last());
        let c = cues.last();
        if c.translation is Some && c.translation->0@.len() > 0 {
            m.insert(c.id@, cue_translation(c))
        } else {
            m
        }
    }
}

/// Whether some cue has a non-empty translation.
pub open spec fn has_translation(cues: Seq<Cue>) -> bool {
    exists|i: int| 0 <= i < cues.len() && #[trigger] cues[i].translation is Some && cues[i].translation->0@.len() > 0
}

fn word_id_of(id: &str) -> (r: String)
    ensures
        r@ == id@ + "-w0"@,
{
    let mut s = owned(id);
    push_str(&mut s, "-w0");
    s
}

fn sentence_of(c: &Cue, start: u64, end: u64) -> (r: Sentence)
    ensures
        r@ == cue_sentence(*c, start, end),
{
    let w = Word { id: word_id_of(c.id.as_str()), text: c.text.clone(), start, end };
    let mut words: Vec<Word> = Vec::new();
    words.push(w);
    let r = Sentence { id: c.id.clone(), text: c.text.clone(), words };
    assert(words_view(r.words@) =~= seq![w@]);
    r
}

/// A document built from a cue list. `times[i]` holds the `f64` bits of cue
/// `i`'s start and end in seconds, `duration` those of the media duration,
/// and `now` the RFC 3339 creation time. The translations, when any cue has
/// a non-empty one, form one track named `translated`.
pub fn from_cues(cues: &Vec<Cue>, times: &Vec<(u64, u64)>, duration: u64, now: &str) -> (r: Doc)
    requires
        times@.len() == cues@.len(),
        cues@.len() < u32::MAX,
    ensures
        r.id@ == "imported"@,
        r.schema == 1,
        r.media.path@.len() == 0,
        r.media.duration_seconds == duration,
        r.media.sample_rate is None,
        r.media.channels is None,
        r.meta.title@ == "imported"@,
        r.meta.description@.len() == 0,
        r.meta.language is None,
        r.meta.created_at@ == now@,
        r.meta.updated_at@ == now@,
        r.paragraphs_v() == cue_paragraphs(cues@, times@),
        !has_translation(cues@) ==> r.translations@.len() == 0,
        has_translation(cues@) ==> (r.translations@.len() == 1 && r.translations@[0].lang@
            == "translated"@ && entries_map(r.translations@[0].entries@) == cue_translations(cues@)),
{
    let mut paragraphs: Vec<Paragraph> = Vec::new();
    let mut entries: Vec<(String, TranslationGroup)> = Vec::new();
    let mut i: usize = 0;
    while i < cues.len()
        invariant
            times@.len() == cues@.len(),
            cues@.len() < u32::MAX,
            0 <= i <= cues@.len(),
            paragraphs_view(paragraphs@) == cue_paragraphs(cues@.subrange(0, i as int), times@),
            entries_map(entries@) == cue_translations(cues@.subrange(0, i as int)),
            entries@.len() == 0 <==> !has_translation(cues@.subrange(0, i as int)),
        decreases cues@.len() - i,
    {
        let c = &cues[i];
        let ghost pre = cues@.subrange(0, i as int);
        let ghost post = cues@.subrange(0, i + 1);
        assert(post.drop_last() =~= pre);
        assert(post.last() == *c);
        proof {
            lemma_cue_paragraphs_len(pre, times@);
        }
        let (start, end) = times[i];
        let s = sentence_of(c, start, end);
        let ghost before = paragraphs_view(paragraphs@);
        let n = paragraphs.len();
        let same = n > 0 && match (&paragraphs[n - 1].speaker, &c.speaker) {
            (Some(a), Some(b)) => crate::text::str_eq(a.as_str(), b.as_str()),
            (None, None) => true,
            _ => false,
        };
        if same {
            assert(before[n - 1] == paragraphs@[n - 1]@);
            let mut last = paragraphs.pop().unwrap();
            let ghost lv = last@;
            last.sentences.push(s);
            assert(sentences_view(last.sentences@) =~= lv.sentences.push(s@));
            paragraphs.push(last);
            assert(paragraphs_view(paragraphs@) =~= before.update(
                n - 1,
                ParagraphView { id: lv.id, speaker: lv.speaker, sentences: lv.sentences.push(s@) },
            ));
        } else {
            let mut ss: Vec<Sentence> = Vec::new();
            ss.push(s);
            assert(sentences_view(ss@) =~= seq![s@]);
            let p = Paragraph { id: (n as u32) + 1, speaker: crate::doc::clone_opt_string(&c.speaker), sentences: ss };
            paragraphs.push(p);
            assert(paragraphs_view(paragraphs@) =~= before.push(p@));
        }
        match &c.translation {
            Some(t) => {
                if t.unicode_len() > 0 {
                    let g = TranslationGroup {
                        id: c.id.clone(),
                        text: t.clone(),
                        source_words: {
                            let mut v: Vec<String> = Vec::new();
                            v.push(word_id_of(c.id.as_str()));
                            v
                        },
                        source_text: Some(c.text.clone()),
                    };
                    assert(strings_view(g.source_words@) =~= seq![c.id@ + "-w0"@]);
                    let ghost eb = entries@;
                    let e = (c.id.clone(), g);
                    entries.push(e);
                    proof {
                        lemma_entries_map_push(eb, e);
                        assert(entries@ == eb.push(e));
                        assert(post[i as int] == *c);
                    }
                }
            },
            None => {},
        }
        proof {
            if has_translation(post) && !(c.translation is Some && c.translation->0@.len() > 0) {
                let k = choose|k: int| 0 <= k < post.len() && #[trigger] post[k].translation is Some && post[k].translation->0@.len() > 0;
                assert(pre[k] == post[k]);
            }
            if has_translation(pre) {
                let k = choose|k: int| 0 <= k < pre.len() && #[trigger] pre[k].translation is Some && pre[k].translation->0@.len() > 0;
                assert(post[k] == pre[k]);
            }
        }
        i = i + 1;
    }
    assert(cues@.subrange(0, i as int) =~= cues@);
    let mut translations: Vec<TranslationTrack> = Vec::new();
    if entries.len() > 0 {
        translations.push(TranslationTrack { lang: owned("translated"), entries });
    }
    Doc {
        id: owned("imported"),
        schema: 1,
        media: MediaRef { path: String::new(), duration_seconds: duration, sample_rate: None, channels: None },
        meta: Meta {
            title: owned("imported"),
            description: String::new(),
            language: None,
            created_at: owned(now),
            updated_at: owned(now),
        },
        paragraphs,
        translations,
    }
}

} // verus!
