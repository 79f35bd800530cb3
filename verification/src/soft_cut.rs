//! Soft cuts: reversible regions of the timeline removed at export. Word
//! and translation timings are untouched by cuts.

use vstd::prelude::*;

use crate::text::str_eq;

verus! {

/// What a cut removes.
#[derive(Debug, Clone, Copy, PartialEq, Eq, Structural)]
pub enum CutKind {
    Silence,
    Filler,
    Retake,
    FalseStart,
    BadTake,
    Manual,
}

/// One soft cut, anchored at an inclusive range of word ids. `duration` is
/// `f64::to_bits` of the seconds removed from the source timeline.
#[derive(Debug)]
pub struct Cut {
    pub id: String,
    pub note: Option<String>,
    pub a_word: String,
    pub b_word: String,
    pub kind: CutKind,
    pub duration: u64,
}

/// The cut list of a project.
#[derive(Debug)]
pub struct ClipCuts {
    pub cuts: Vec<Cut>,
}

pub open spec fn cut_ids(cuts: Seq<Cut>) -> Seq<Seq<char>> {
    Seq::new(cuts.len(), |i: int| cuts[i].id@)
}

/// The cuts that do not carry id `id`, in order.
pub open spec fn without_id(cuts: Seq<Cut>, id: Seq<char>) -> Seq<Cut>
    decreases cuts.len(),
{
    if cuts.len() == 0 {
        Seq::empty()
    } else {
        without_id(cuts.drop_last(), id) + if cuts.last().id@ == id {
            Seq::empty()
        } else {
            seq![cuts.last()]
        }
    }
}

pub proof fn lemma_without_id_len(cuts: Seq<Cut>, id: Seq<char>)
    ensures
        without_id(cuts, id).len() <= cuts.len(),
        without_id(cuts, id).len() == cuts.len() <==> forall|i: int|
            0 <= i < cuts.len() ==> #[trigger] cuts[i].id@ != id,
        forall|i: int| 0 <= i < without_id(cuts, id).len() ==> #[trigger] without_id(cuts, id)[i].id@ != id,
    decreases cuts.len(),
{
    if cuts.len() > 0 {
        lemma_without_id_len(cuts.drop_last(), id);
        let w = without_id(cuts, id);
        let p = without_id(cuts.drop_last(), id);
        assert forall|i: int| 0 <= i < w.len() implies #[trigger] w[i].id@ != id by {
            if i < p.len() {
                assert(w[i] == p[i]);
            }
        }
        if without_id(cuts, id).len() == cuts.len() {
            assert forall|i: int| 0 <= i < cuts.len() implies #[trigger] cuts[i].id@ != id by {
                if i < cuts.len() - 1 {
                    assert(cuts.drop_last()[i] == cuts[i]);
                }
            }
        }
        if forall|i: int| 0 <= i < cuts.len() ==> #[trigger] cuts[i].id@ != id {
            assert forall|i: int| 0 <= i < cuts.len() - 1 implies #[trigger] cuts.drop_last()[i].id@
                != id by {
                assert(cuts.drop_last()[i] == cuts[i]);
            }
            assert(cuts[cuts.len() - 1].id@ != id);
        }
    }
}

impl ClipCuts {
    /// An empty cut list.
    pub fn new() -> (r: Self)
        ensures
            r.cuts@.len() == 0,
    {
        ClipCuts { cuts: Vec::new() }
    }

    /// Adds a cut at the end of the list.
    pub fn add(&mut self, cut: Cut)
        ensures
            final(self).cuts@ == old(self).cuts@.push(cut),
    {
        self.cuts.push(cut);
    }

    /// Restores (deletes) every cut with id `id`. Returns whether one was
    /// removed.
    pub fn restore(&mut self, id: &str) -> (r: bool)
        ensures
            final(self).cuts@ == without_id(old(self).cuts@, id@),
            r == exists|i: int| 0 <= i < old(self).cuts@.len() && #[trigger] old(self).cuts@[i].id@ == id@,
    {
        let ghost all = self.cuts@;
        let mut rest: Vec<Cut> = Vec::new();
        std::mem::swap(&mut rest, &mut self.cuts);
        let n = rest.len();
        let mut kept: Vec<Cut> = Vec::new();
        let mut i: usize = 0;
        while i < n
            invariant
                n == all.len(),
                0 <= i <= n,
                rest@ == all.subrange(i as int, n as int),
                kept@ == without_id(all.subrange(0, i as int), id@),
            decreases n - i,
        {
            let c = rest.remove(0);
            assert(all.subrange(0, i + 1).drop_last() =~= all.subrange(0, i as int));
            assert(all.subrange(0, i + 1).last() == c);
            if !str_eq(c.id.as_str(), id) {
                kept.push(c);
            }
            i = i + 1;
            assert(rest@ =~= all.subrange(i as int, n as int));
        }
        assert(all.subrange(0, n as int) =~= all);
        proof {
            lemma_without_id_len(all, id@);
        }
        let removed = kept.len() != n;
        self.cuts = kept;
        removed
    }
}


/// The runs of consecutive indices in `s`, in order, each as its first and
/// last index: an index one past the previous one extends the current run,
/// any other starts a new one.
pub open spec fn runs_spec(s: Seq<usize>) -> Seq<(usize, usize)>
    decreases s.len(),
{
    if s.len() == 0 {
        Seq::empty()
    } else {
        let pre = runs_spec(s.drop_last());
        let x = s.last();
        if pre.len() > 0 && pre.last().1 + 1 == x {
            pre.update(pre.len() - 1, (pre.last().0, x))
        } else {
            pre.push((x, x))
        }
    }
}

/// The surviving words of a partly restored cut, grouped into the runs
/// that each become one trimmed cut.
pub fn survivor_runs(survivors: &Vec<usize>) -> (r: Vec<(usize, usize)>)
    ensures
        r@ == runs_spec(survivors@),
{
    let mut out: Vec<(usize, usize)> = Vec::new();
    let mut i: usize = 0;
    while i < survivors.len()
        invariant
            0 <= i <= survivors@.len(),
            out@ == runs_spec(survivors@.subrange(0, i as int)),
        decreases survivors@.len() - i,
    {
        let x = survivors[i];
        assert(survivors@.subrange(0, i + 1).drop_last() =~= survivors@.subrange(0, i as int));
        assert(survivors@.subrange(0, i + 1).last() == x);
        let n = out.len();
        if n > 0 && x > 0 && out[n - 1].1 == x - 1 {
            let first = out[n - 1].0;
            out.set(n - 1, (first, x));
        } else {
            out.push((x, x));
        }
        i = i + 1;
    }
    assert(survivors@.subrange(0, i as int) =~= survivors@);
    out
}

/// The id of the `part`-th trimmed piece of cut `id`: `id~part`.
pub fn piece_id(id: &str, part: u64) -> (r: String)
    ensures
        r@ == id@ + seq!['~'] + crate::text::decimal(part as nat),
{
    let mut out = String::new();
    crate::text::push_str(&mut out, id);
    crate::text::push_char(&mut out, '~');
    crate::text::push_decimal(&mut out, part);
    out
}
} // verus!
