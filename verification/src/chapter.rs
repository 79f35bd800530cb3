//! Editable chapter markers, each starting at a transcript cue.

use vstd::prelude::*;

use crate::doc::{strings_view, Doc};
use crate::edit::{collect_sentence_ids, sentence_ids};
use crate::error::{AppError, AppResult};
use crate::text::{decimal, owned, push_decimal, push_str, str_eq, trim, trimmed};

verus! {

/// A chapter: a title and the id of the cue it starts at.
#[derive(Debug)]
pub struct Chapter {
    pub title: String,
    pub start_seg: String,
}

pub struct ChapterView {
    pub title: Seq<char>,
    pub start_seg: Seq<char>,
}

impl View for Chapter {
    type V = ChapterView;

    open spec fn view(&self) -> ChapterView {
        ChapterView { title: self.title@, start_seg: self.start_seg@ }
    }
}

pub open spec fn chapters_view(v: Seq<Chapter>) -> Seq<ChapterView> {
    Seq::new(v.len(), |i: int| v[i]@)
}

/// The position of cue `id` in transcript order: its last occurrence, or
/// -1.
pub open spec fn cue_rank(ids: Seq<Seq<char>>, id: Seq<char>) -> int
    decreases ids.len(),
{
    if ids.len() == 0 {
        -1
    } else if ids.last() == id {
        ids.len() - 1
    } else {
        cue_rank(ids.drop_last(), id)
    }
}

pub proof fn lemma_cue_rank(ids: Seq<Seq<char>>, id: Seq<char>)
    ensures
        -1 <= cue_rank(ids, id) < ids.len(),
    decreases ids.len(),
{
    if ids.len() > 0 {
        lemma_cue_rank(ids.drop_last(), id);
    }
}

/// The chapters checked so far (trimmed) and the rank of the last one, or
/// the first error.
pub open spec fn normalize_spec(ids: Seq<Seq<char>>, cs: Seq<ChapterView>) -> Result<
    (Seq<ChapterView>, int),
    Seq<char>,
>
    decreases cs.len(),
{
    if cs.len() == 0 {
        Ok((Seq::empty(), -1))
    } else {
        match normalize_spec(ids, cs.drop_last()) {
            Err(e) => Err(e),
            Ok((out, previous)) => {
                let index = cs.len() - 1;
                let c = cs.last();
                let title = trimmed(c.title);
                let rank = cue_rank(ids, c.start_seg);
                if title.len() == 0 {
                    Err("chapter "@ + decimal((index + 1) as nat) + " has an empty title"@)
                } else if title.len() > 200 {
                    Err("chapter "@ + decimal((index + 1) as nat) + " title exceeds 200 characters"@)
                } else if rank == -1 {
                    Err("chapter "@ + decimal((index + 1) as nat) + " references unknown cue `"@
                        + c.start_seg + "`"@)
                } else if index == 0 && rank != 0 {
                    Err("the first chapter must start at the first cue"@)
                } else if index > 0 && rank <= previous {
                    Err("chapter starts must be unique and follow transcript order"@)
                } else {
                    Ok((out.push(ChapterView { title: title, start_seg: c.start_seg }), rank))
                }
            },
        }
    }
}

fn last_rank(ids: &Vec<String>, id: &str) -> (r: Option<usize>)
    ensures
        match r {
            None => cue_rank(strings_view(ids@), id@) == -1,
            Some(k) => k as int == cue_rank(strings_view(ids@), id@),
        },
{
    let ghost v = strings_view(ids@);
    let mut i: usize = ids.len();
    assert(v.subrange(0, i as int) =~= v);
    while i > 0
        invariant
            v == strings_view(ids@),
            0 <= i <= v.len(),
            cue_rank(v.subrange(0, i as int), id@) == cue_rank(v, id@),
        decreases i,
    {
        let ghost pre = v.subrange(0, i as int);
        assert(pre.drop_last() =~= v.subrange(0, i - 1));
        assert(pre.last() == ids@[i - 1]@);
        if str_eq(ids[i - 1].as_str(), id) {
            return Some(i - 1);
        }
        i = i - 1;
    }
    None
}

/// Checks chapters against the transcript, in order: each title, trimmed,
/// must be non-empty and at most 200 characters; each must start at a known
/// cue; the first at the first cue; and starts must strictly follow
/// transcript order. Returns the chapters with trimmed titles.
pub fn normalize(doc: &Doc, chapters: Vec<Chapter>) -> (r: AppResult<Vec<Chapter>>)
    requires
        chapters@.len() < u64::MAX,
    ensures
        ({
            let ids = sentence_ids(doc.sentences_v());
            match normalize_spec(ids, chapters_view(chapters@)) {
                Ok((out, _)) => r matches Ok(v) && chapters_view(v@) == out,
                Err(m) => r matches Err(AppError::Schema(e)) && e@ == m,
            }
        }),
{
    let ids = collect_sentence_ids(doc);
    let ghost iv = strings_view(ids@);
    let ghost cv = chapters_view(chapters@);
    let total = chapters.len();
    let mut rest = chapters;
    let mut out: Vec<Chapter> = Vec::new();
    let mut previous: usize = 0;
    let mut index: usize = 0;
    while index < total
        invariant
            iv == strings_view(ids@),
            iv == sentence_ids(doc.sentences_v()),
            total == cv.len(),
            cv == chapters_view(chapters@),
            total < u64::MAX,
            0 <= index <= total,
            chapters_view(rest@) == cv.subrange(index as int, total as int),
            normalize_spec(iv, cv.subrange(0, index as int)) matches Ok((o, p)) && chapters_view(out@)
                == o && (index > 0 ==> p == previous as int),
        decreases total - index,
    {
        assert(chapters_view(rest@).len() == rest@.len());
        assert(chapters_view(rest@)[0] == rest@[0]@);
        let ghost prev_rest = rest@;
        let chapter = rest.remove(0);
        assert(chapter@ == cv[index as int]);
        assert forall|k: int| 0 <= k < rest@.len() implies #[trigger] chapters_view(rest@)[k] == cv[index
            + 1 + k] by {
            assert(rest@[k] == prev_rest[k + 1]);
            assert(chapters_view(prev_rest)[k + 1] == prev_rest[k + 1]@);
        }
        assert(chapters_view(rest@) =~= cv.subrange(index + 1, total as int));
        let ghost pre = cv.subrange(0, index + 1);
        assert(pre.drop_last() =~= cv.subrange(0, index as int));
        assert(pre.last() == chapter@);
        proof {
            lemma_cue_rank(iv, chapter@.start_seg);
        }
        let title = trim(chapter.title.as_str());
        if title.unicode_len() == 0 {
            let mut m = String::new();
            push_str(&mut m, "chapter ");
            push_decimal(&mut m, (index + 1) as u64);
            push_str(&mut m, " has an empty title");
            proof {
                lemma_normalize_err_stays(iv, cv, index as int + 1);
            }

            return Err(AppError::Schema(m));
        }
        if title.unicode_len() > 200 {
            let mut m = String::new();
            push_str(&mut m, "chapter ");
            push_decimal(&mut m, (index + 1) as u64);
            push_str(&mut m, " title exceeds 200 characters");
            proof {
                lemma_normalize_err_stays(iv, cv, index as int + 1);
            }
            return Err(AppError::Schema(m));
        }
        let rank = match last_rank(&ids, chapter.start_seg.as_str()) {
            None => {
                let mut m = String::new();
                push_str(&mut m, "chapter ");
                push_decimal(&mut m, (index + 1) as u64);
                push_str(&mut m, " references unknown cue `");
                push_str(&mut m, chapter.start_seg.as_str());
                push_str(&mut m, "`");
                proof {
                    lemma_normalize_err_stays(iv, cv, index as int + 1);
                }
                return Err(AppError::Schema(m));
            },
            Some(k) => k,
        };
        if index == 0 && rank != 0 {
            let mut m = String::new();
            push_str(&mut m, "the first chapter must start at the first cue");
            proof {
                lemma_normalize_err_stays(iv, cv, index as int + 1);
            }
            return Err(AppError::Schema(m));
        }
        if index > 0 && rank <= previous {
            let mut m = String::new();
            push_str(&mut m, "chapter starts must be unique and follow transcript order");
            proof {
                lemma_normalize_err_stays(iv, cv, index as int + 1);
            }
            return Err(AppError::Schema(m));
        }
        let ghost before = out@;
        let c = Chapter { title: owned(title), start_seg: chapter.start_seg };
        out.push(c);
        assert(chapters_view(out@) =~= chapters_view(before).push(c@));
        previous = rank;
        index = index + 1;
    }
    assert(cv.subrange(0, index as int) =~= cv);
    Ok(out)
}

/// Once a prefix fails, every longer prefix fails with the same message.
pub proof fn lemma_normalize_err_stays(ids: Seq<Seq<char>>, cs: Seq<ChapterView>, k: int)
    requires
        0 <= k <= cs.len(),
        normalize_spec(ids, cs.subrange(0, k)) is Err,
    ensures
        normalize_spec(ids, cs) == normalize_spec(ids, cs.subrange(0, k)),
    decreases cs.len() - k,
{
    if k < cs.len() {
        let next = cs.subrange(0, k + 1);
        assert(next.drop_last() =~= cs.subrange(0, k));
        lemma_normalize_err_stays(ids, cs, k + 1);
    } else {
        assert(cs.subrange(0, k) =~= cs);
    }
}


/// Accepted chapters keep the order and starts they were given, the first
/// starts at the first cue, and their starts strictly follow transcript
/// order: no two share a cue and none goes back.
pub proof fn law_accepted_chapters_follow_the_transcript(ids: Seq<Seq<char>>, cs: Seq<ChapterView>)
    ensures
        normalize_spec(ids, cs) matches Ok((out, last)) ==> {
            &&& out.len() == cs.len()
            &&& forall|i: int| 0 <= i < out.len() ==> (#[trigger] out[i]).start_seg == cs[i].start_seg
                && 0 <= cue_rank(ids, out[i].start_seg) && out[i].title == trimmed(cs[i].title)
                && 0 < out[i].title.len() <= 200
            &&& out.len() > 0 ==> cue_rank(ids, out[0].start_seg) == 0
            &&& forall|i: int, j: int|
                0 <= i < j < out.len() ==> cue_rank(ids, (#[trigger] out[i]).start_seg) < cue_rank(
                    ids,
                    (#[trigger] out[j]).start_seg,
                )
            &&& out.len() > 0 ==> last == cue_rank(ids, out[out.len() - 1].start_seg)
        },
    decreases cs.len(),
{
    if cs.len() > 0 {
        law_accepted_chapters_follow_the_transcript(ids, cs.drop_last());
        match normalize_spec(ids, cs.drop_last()) {
            Err(_) => {},
            Ok((pre, previous)) => {
                if let Ok((out, last)) = normalize_spec(ids, cs) {
                    assert(out == pre.push(ChapterView { title: trimmed(cs.last().title), start_seg: cs.last().start_seg }));
                    assert forall|i: int| 0 <= i < out.len() implies (#[trigger] out[i]).start_seg == cs[i].start_seg
                        && 0 <= cue_rank(ids, out[i].start_seg) && out[i].title == trimmed(cs[i].title)
                        && 0 < out[i].title.len() <= 200 by {
                        if i < pre.len() {
                            assert(out[i] == pre[i]);
                            assert(cs.drop_last()[i] == cs[i]);
                        }
                    }
                    assert forall|i: int, j: int| 0 <= i < j < out.len() implies cue_rank(
                        ids,
                        (#[trigger] out[i]).start_seg,
                    ) < cue_rank(ids, (#[trigger] out[j]).start_seg) by {
                        assert(out[i] == pre[i]);
                        if j < pre.len() {
                            assert(out[j] == pre[j]);
                        } else {
                            assert(cue_rank(ids, pre[i].start_seg) <= cue_rank(ids, pre[pre.len() - 1].start_seg)) by {
                                if i < pre.len() - 1 {
                                    assert(pre[i] == out[i] && pre[pre.len() - 1] == out[pre.len() - 1]);
                                }
                            }
                        }
                    }
                    if out.len() > 1 {
                        assert(out[0] == pre[0]);
                    }
                }
            },
        }
    }
}

/// Chapters that meet every rule are accepted: titles that are not blank
/// and at most 200 characters once trimmed, starts at known cues, the
/// first at the first cue, and starts strictly following transcript order.
pub proof fn law_well_formed_chapters_are_accepted(ids: Seq<Seq<char>>, cs: Seq<ChapterView>)
    requires
        forall|i: int|
            0 <= i < cs.len() ==> 0 < trimmed((#[trigger] cs[i]).title).len() <= 200 && 0 <= cue_rank(
                ids,
                cs[i].start_seg,
            ),
        cs.len() > 0 ==> cue_rank(ids, cs[0].start_seg) == 0,
        forall|i: int, j: int|
            0 <= i < j < cs.len() ==> cue_rank(ids, (#[trigger] cs[i]).start_seg) < cue_rank(
                ids,
                (#[trigger] cs[j]).start_seg,
            ),
    ensures
        normalize_spec(ids, cs) is Ok,
    decreases cs.len(),
{
    if cs.len() > 0 {
        let pre = cs.drop_last();
        assert forall|i: int| 0 <= i < pre.len() implies 0 < trimmed((#[trigger] pre[i]).title).len() <= 200
            && 0 <= cue_rank(ids, pre[i].start_seg) by {
            assert(pre[i] == cs[i]);
        }
        assert forall|i: int, j: int| 0 <= i < j < pre.len() implies cue_rank(ids, (#[trigger] pre[i]).start_seg)
            < cue_rank(ids, (#[trigger] pre[j]).start_seg) by {
            assert(pre[i] == cs[i] && pre[j] == cs[j]);
        }
        if pre.len() > 0 {
            assert(pre[0] == cs[0]);
        }
        law_well_formed_chapters_are_accepted(ids, pre);
        law_accepted_chapters_follow_the_transcript(ids, pre);
        assert(cs[cs.len() - 1] == cs.last());
        if pre.len() > 0 {
            assert(pre[pre.len() - 1] == cs[pre.len() - 1]);
        }
    }
}
} // verus!
