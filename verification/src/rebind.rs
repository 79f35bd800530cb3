//! Word-preserving transcript correction.
//!
//! A corrected sentence is split into tokens, each anchored to an unchanged
//! source word where one matches, so that unchanged words keep their ids
//! and timing. Placing the new words in time is left to the caller.

use vstd::prelude::*;

use crate::caption_presets::{concat_all, lemma_concat_push, remove_ws, without_whitespace};
use crate::doc::{Word, WordView};
use crate::text::{
    chars_of, is_whitespace, is_ws, join_with, lemma_join_with_push, push_char, push_str, str_eq,
    trim, trimmed,
};

verus! {

/// Length of a longest common subsequence of `s[i..]` and `t[j..]`.
pub open spec fn lcs(s: Seq<Seq<char>>, t: Seq<Seq<char>>, i: int, j: int) -> nat
    decreases s.len() - i + t.len() - j,
{
    if i < 0 || j < 0 || i >= s.len() || j >= t.len() {
        0
    } else if s[i] == t[j] {
        1 + lcs(s, t, i + 1, j + 1)
    } else {
        let a = lcs(s, t, i + 1, j);
        let b = lcs(s, t, i, j + 1);
        if a >= b {
            a
        } else {
            b
        }
    }
}

/// The matched pairs a walk from `(i, j)` picks: a pair wherever the two
/// words agree, otherwise a step along the side that keeps the longest
/// common subsequence (the source side on a tie).
pub open spec fn lcs_trace(s: Seq<Seq<char>>, t: Seq<Seq<char>>, i: int, j: int) -> Seq<(int, int)>
    decreases s.len() - i + t.len() - j,
{
    if i < 0 || j < 0 || i >= s.len() || j >= t.len() {
        Seq::empty()
    } else if s[i] == t[j] {
        seq![(i, j)] + lcs_trace(s, t, i + 1, j + 1)
    } else if lcs(s, t, i + 1, j) >= lcs(s, t, i, j + 1) {
        lcs_trace(s, t, i + 1, j)
    } else {
        lcs_trace(s, t, i, j + 1)
    }
}

pub proof fn lemma_lcs_bound(s: Seq<Seq<char>>, t: Seq<Seq<char>>, i: int, j: int)
    requires
        0 <= i <= s.len(),
        0 <= j <= t.len(),
    ensures
        lcs(s, t, i, j) <= s.len() - i,
        lcs(s, t, i, j) <= t.len() - j,
    decreases s.len() - i + t.len() - j,
{
    if i < s.len() && j < t.len() {
        lemma_lcs_bound(s, t, i + 1, j + 1);
        lemma_lcs_bound(s, t, i + 1, j);
        lemma_lcs_bound(s, t, i, j + 1);
    }
}

/// The walk picks a common subsequence: pairs of equal words, strictly
/// increasing on both sides, and as many as a longest one has.
pub proof fn lemma_lcs_trace(s: Seq<Seq<char>>, t: Seq<Seq<char>>, i: int, j: int)
    requires
        0 <= i <= s.len(),
        0 <= j <= t.len(),
    ensures
        lcs_trace(s, t, i, j).len() == lcs(s, t, i, j),
        forall|k: int|
            0 <= k < lcs_trace(s, t, i, j).len() ==> {
                let (a, b) = #[trigger] lcs_trace(s, t, i, j)[k];
                i <= a < s.len() && j <= b < t.len() && s[a] == t[b]
            },
        forall|k: int, l: int|
            0 <= k < l < lcs_trace(s, t, i, j).len() ==> (#[trigger] lcs_trace(s, t, i, j)[k]).0
                < (#[trigger] lcs_trace(s, t, i, j)[l]).0 && lcs_trace(s, t, i, j)[k].1 < lcs_trace(
                s,
                t,
                i,
                j,
            )[l].1,
    decreases s.len() - i + t.len() - j,
{
    if i < s.len() && j < t.len() {
        if s[i] == t[j] {
            lemma_lcs_trace(s, t, i + 1, j + 1);
            let rest = lcs_trace(s, t, i + 1, j + 1);
            assert(lcs_trace(s, t, i, j) == seq![(i, j)] + rest);
            assert forall|k: int, l: int|
                0 <= k < l < lcs_trace(s, t, i, j).len() implies (#[trigger] lcs_trace(
                s,
                t,
                i,
                j,
            )[k]).0 < (#[trigger] lcs_trace(s, t, i, j)[l]).0 && lcs_trace(s, t, i, j)[k].1
                < lcs_trace(s, t, i, j)[l].1 by {
                if k > 0 {
                    assert(rest[k - 1] == lcs_trace(s, t, i, j)[k]);
                }
                assert(rest[l - 1] == lcs_trace(s, t, i, j)[l]);
            }
            assert forall|k: int| 0 <= k < lcs_trace(s, t, i, j).len() implies {
                let (a, b) = #[trigger] lcs_trace(s, t, i, j)[k];
                i <= a < s.len() && j <= b < t.len() && s[a] == t[b]
            } by {
                if k > 0 {
                    assert(rest[k - 1] == lcs_trace(s, t, i, j)[k]);
                }
            }
        } else if lcs(s, t, i + 1, j) >= lcs(s, t, i, j + 1) {
            lemma_lcs_trace(s, t, i + 1, j);
        } else {
            lemma_lcs_trace(s, t, i, j + 1);
        }
    }
}

/// The texts of a list of word texts given as `&str`.
pub open spec fn strs_seq(v: Seq<&str>) -> Seq<Seq<char>> {
    Seq::new(v.len(), |k: int| v[k]@)
}

pub open spec fn pairs_view(v: Seq<(usize, usize)>) -> Seq<(int, int)> {
    Seq::new(v.len(), |k: int| (v[k].0 as int, v[k].1 as int))
}

/// Anchor pairs `(source index, target index)` of a longest common
/// subsequence of two word lists, in order.
pub fn lcs_anchors(source: &[&str], target: &[&str]) -> (r: Vec<(usize, usize)>)
    requires
        source@.len() < usize::MAX,
        target@.len() < usize::MAX,
    ensures
        pairs_view(r@) == lcs_trace(strs_seq(source@), strs_seq(target@), 0, 0),
{
    let ghost s = strs_seq(source@);
    let ghost t = strs_seq(target@);
    let n = source.len();
    let m = target.len();
    // rows[k] holds lcs(n - k, j) for every j in 0..=m.
    let mut rows: Vec<Vec<usize>> = Vec::new();
    let mut base: Vec<usize> = Vec::new();
    let mut j: usize = 0;
    while j <= m
        invariant
            m == t.len(),
            m < usize::MAX,
            0 <= j <= m + 1,
            base@.len() == j,
            forall|jj: int| 0 <= jj < j ==> #[trigger] base@[jj] == 0,
        decreases m + 1 - j,
    {
        base.push(0);
        j = j + 1;
    }
    assert forall|jj: int| 0 <= jj <= m implies #[trigger] base@[jj] == lcs(s, t, n as int, jj) by {}
    rows.push(base);
    let mut i: usize = n;
    while i > 0
        invariant
            n == s.len(),
            m == t.len(),
            s == strs_seq(source@),
            t == strs_seq(target@),
            m < usize::MAX,
            0 <= i <= n,
            rows@.len() == n - i + 1,
            forall|k: int| 0 <= k < rows@.len() ==> (#[trigger] rows@[k])@.len() == m + 1,
            forall|k: int, jj: int|
                0 <= k < rows@.len() && 0 <= jj <= m ==> #[trigger] rows@[k]@[jj] == lcs(
                    s,
                    t,
                    n - k,
                    jj,
                ),
        decreases i,
    {
        let ii = i - 1;
        let k_next = n - i;
        let next = &rows[k_next];
        assert(next@.len() == m + 1);
        let mut cur: Vec<usize> = Vec::new();
        let mut z: usize = 0;
        while z <= m
            invariant
                m == t.len(),
                0 <= z <= m + 1,
                m < usize::MAX,
                cur@.len() == z,
                forall|q: int| 0 <= q < z ==> #[trigger] cur@[q] == 0,
            decreases m + 1 - z,
        {
            cur.push(0);
            z = z + 1;
        }
        proof {
            lemma_lcs_bound(s, t, ii as int, m as int);
        }
        assert(cur@[m as int] == lcs(s, t, ii as int, m as int));
        let mut jj: usize = m;
        while jj > 0
            invariant
                n == s.len(),
                m == t.len(),
                s == strs_seq(source@),
                t == strs_seq(target@),
                ii < n,
                0 <= jj <= m,
                cur@.len() == m + 1,
                next@.len() == m + 1,
                forall|q: int| 0 <= q <= m ==> #[trigger] next@[q] == lcs(s, t, ii + 1, q),
                forall|q: int| jj <= q <= m ==> #[trigger] cur@[q] == lcs(s, t, ii as int, q),
            decreases jj,
        {
            let q = jj - 1;
            proof {
                lemma_lcs_bound(s, t, ii + 1, q + 1);
            }
            assert(s[ii as int] == source@[ii as int]@);
            assert(t[q as int] == target@[q as int]@);
            let v = if str_eq(source[ii], target[q]) {
                next[q + 1] + 1
            } else {
                let a = next[q];
                let b = cur[q + 1];
                if a >= b {
                    a
                } else {
                    b
                }
            };
            cur.set(q, v);
            jj = q;
        }
        rows.push(cur);
        i = ii;
    }
    let mut out: Vec<(usize, usize)> = Vec::new();
    let mut a: usize = 0;
    let mut b: usize = 0;
    assert(rows@.len() == n + 1);
    while a < n && b < m
        invariant
            n == s.len(),
            m == t.len(),
            s == strs_seq(source@),
            t == strs_seq(target@),
            rows@.len() == n + 1,
            forall|k: int| 0 <= k < rows@.len() ==> (#[trigger] rows@[k])@.len() == m + 1,
            forall|k: int, jj: int|
                0 <= k < rows@.len() && 0 <= jj <= m ==> #[trigger] rows@[k]@[jj] == lcs(
                    s,
                    t,
                    n - k,
                    jj,
                ),
            0 <= a <= n,
            0 <= b <= m,
            pairs_view(out@) + lcs_trace(s, t, a as int, b as int) == lcs_trace(s, t, 0, 0),
        decreases n - a + m - b,
    {
        assert(s[a as int] == source@[a as int]@);
        assert(t[b as int] == target@[b as int]@);
        let ghost before = out@;
        if str_eq(source[a], target[b]) {
            out.push((a, b));
            assert(pairs_view(out@) =~= pairs_view(before).push((a as int, b as int)));
            assert(lcs_trace(s, t, a as int, b as int) == seq![(a as int, b as int)] + lcs_trace(
                s,
                t,
                a + 1,
                b + 1,
            ));
            assert(pairs_view(out@) + lcs_trace(s, t, a + 1, b + 1) =~= pairs_view(before)
                + lcs_trace(s, t, a as int, b as int));
            a = a + 1;
            b = b + 1;
        } else {
            let down = rows[n - a - 1][b];
            let right = rows[n - a][b + 1];
            assert(down == lcs(s, t, a + 1, b as int));
            assert(right == lcs(s, t, a as int, b + 1));
            if down >= right {
                a = a + 1;
            } else {
                b = b + 1;
            }
        }
    }
    assert(lcs_trace(s, t, a as int, b as int) =~= Seq::<(int, int)>::empty());
    assert(pairs_view(out@) =~= pairs_view(out@) + lcs_trace(s, t, a as int, b as int));
    out
}

/// The CJK scripts a correction is matched per character in: CJK
/// ideographs (with extension A and compatibility ideographs), kana and
/// Hangul syllables.
pub open spec fn rebind_cjk(c: char) -> bool {
    let u = c as u32;
    (0x3400 <= u <= 0x4dbf) || (0x4e00 <= u <= 0x9fff) || (0x3040 <= u <= 0x30ff) || (0xac00 <= u
        <= 0xd7af) || (0xf900 <= u <= 0xfaff)
}

pub fn is_cjk(ch: char) -> (r: bool)
    ensures
        r == rebind_cjk(ch),
{
    let u = ch as u32;
    (0x3400 <= u && u <= 0x4dbf) || (0x4e00 <= u && u <= 0x9fff) || (0x3040 <= u && u <= 0x30ff)
        || (0xac00 <= u && u <= 0xd7af) || (0xf900 <= u && u <= 0xfaff)
}

/// Words split so far, and the word being read.
pub struct SplitState {
    pub parts: Seq<Seq<char>>,
    pub cur: Seq<char>,
}

pub open spec fn split_flush(st: SplitState) -> SplitState {
    if st.cur.len() > 0 {
        SplitState { parts: st.parts.push(st.cur), cur: Seq::empty() }
    } else {
        st
    }
}

pub open spec fn split_fold(cs: Seq<char>) -> SplitState
    decreases cs.len(),
{
    if cs.len() == 0 {
        SplitState { parts: Seq::empty(), cur: Seq::empty() }
    } else {
        let st = split_fold(cs.drop_last());
        if is_ws(cs.last()) {
            split_flush(st)
        } else {
            SplitState { parts: st.parts, cur: st.cur.push(cs.last()) }
        }
    }
}

/// The maximal runs of characters other than white space
/// (`str::split_whitespace`).
pub open spec fn ws_words(s: Seq<char>) -> Seq<Seq<char>> {
    split_flush(split_fold(s)).parts
}

pub proof fn lemma_split_fold_count(cs: Seq<char>)
    ensures
        split_fold(cs).cur.len() == 0 ==> 2 * split_fold(cs).parts.len() <= cs.len(),
        split_fold(cs).cur.len() > 0 ==> 2 * split_fold(cs).parts.len() + 1 <= cs.len(),
    decreases cs.len(),
{
    if cs.len() > 0 {
        lemma_split_fold_count(cs.drop_last());
    }
}

/// A text of `n` characters splits into at most `(n + 1) / 2` words.
pub proof fn lemma_ws_words_count(s: Seq<char>)
    ensures
        2 * ws_words(s).len() <= s.len() + 1,
{
    lemma_split_fold_count(s);
}

pub open spec fn strings_seq(v: Seq<String>) -> Seq<Seq<char>> {
    Seq::new(v.len(), |k: int| v[k]@)
}

/// `str::split_whitespace`, collected.
pub fn split_whitespace(s: &str) -> (r: Vec<String>)
    ensures
        strings_seq(r@) == ws_words(s@),
{
    let n = s.unicode_len();
    let mut parts: Vec<String> = Vec::new();
    let mut cur = String::new();
    let mut i: usize = 0;
    while i < n
        invariant
            n == s@.len(),
            0 <= i <= n,
            strings_seq(parts@) == split_fold(s@.subrange(0, i as int)).parts,
            cur@ == split_fold(s@.subrange(0, i as int)).cur,
        decreases n - i,
    {
        let c = s.get_char(i);
        assert(s@.subrange(0, i + 1).drop_last() =~= s@.subrange(0, i as int));
        if is_whitespace(c) {
            if cur.unicode_len() > 0 {
                let mut w = String::new();
                std::mem::swap(&mut w, &mut cur);
                let ghost before = parts@;
                parts.push(w);
                assert(strings_seq(parts@) =~= strings_seq(before).push(w@));
            }
        } else {
            push_char(&mut cur, c);
        }
        i = i + 1;
    }
    assert(s@.subrange(0, i as int) =~= s@);
    if cur.unicode_len() > 0 {
        let ghost before = parts@;
        parts.push(cur);
        assert(strings_seq(parts@) =~= strings_seq(before).push(cur@));
    }
    parts
}

/// A corrected word, anchored to the index of the unchanged source word it
/// keeps, if any.
#[derive(Debug)]
pub struct Token {
    pub text: String,
    pub anchor: Option<usize>,
}

pub struct TokenView {
    pub text: Seq<char>,
    pub anchor: Option<usize>,
}

impl View for Token {
    type V = TokenView;

    open spec fn view(&self) -> TokenView {
        TokenView { text: self.text@, anchor: self.anchor }
    }
}

pub open spec fn tokens_view(v: Seq<Token>) -> Seq<TokenView> {
    Seq::new(v.len(), |k: int| v[k]@)
}

pub open spec fn word_texts(ws: Seq<WordView>) -> Seq<Seq<char>> {
    Seq::new(ws.len(), |k: int| ws[k].text)
}

/// Index of the first pair at or after `k` whose target index is `idx`, or
/// -1.
pub open spec fn pair_for_target(pairs: Seq<(int, int)>, idx: int, k: int) -> int
    decreases pairs.len() - k,
{
    if k < 0 || k >= pairs.len() {
        -1
    } else if pairs[k].1 == idx {
        k
    } else {
        pair_for_target(pairs, idx, k + 1)
    }
}

/// The source word that target word `idx` is anchored to.
pub open spec fn anchor_of(pairs: Seq<(int, int)>, idx: int) -> Option<usize> {
    let k = pair_for_target(pairs, idx, 0);
    if k == -1 {
        None
    } else {
        Some(pairs[k].0 as usize)
    }
}

/// Latin correction tokens: the corrected words, each anchored through a
/// longest common subsequence with the source words.
pub open spec fn latin_tokens_spec(ws: Seq<WordView>, corrected: Seq<char>) -> Seq<TokenView> {
    let target = ws_words(corrected);
    let pairs = lcs_trace(word_texts(ws), target, 0, 0);
    Seq::new(target.len(), |k: int| TokenView { text: target[k], anchor: anchor_of(pairs, k) })
}

fn anchor_for(anchors: &Vec<(usize, usize)>, idx: usize) -> (r: Option<usize>)
    ensures
        r == anchor_of(pairs_view(anchors@), idx as int),
{
    let ghost pv = pairs_view(anchors@);
    let mut k: usize = 0;
    while k < anchors.len()
        invariant
            pv == pairs_view(anchors@),
            0 <= k <= anchors@.len(),
            pair_for_target(pv, idx as int, k as int) == pair_for_target(pv, idx as int, 0),
        decreases anchors@.len() - k,
    {
        if anchors[k].1 == idx {
            return Some(anchors[k].0);
        }
        k = k + 1;
    }
    None
}

fn latin_tokens(words: &[Word], corrected: &str) -> (r: Vec<Token>)
    requires
        words@.len() < usize::MAX,
    ensures
        tokens_view(r@) == latin_tokens_spec(
            Seq::new(words@.len(), |k: int| words@[k]@),
            corrected@,
        ),
{
    let ghost ws = Seq::new(words@.len(), |k: int| words@[k]@);
    let target = split_whitespace(corrected);
    let clen = corrected.unicode_len();
    proof {
        assert(clen == corrected@.len());
        lemma_ws_words_count(corrected@);
        assert(target@.len() == strings_seq(target@).len());
    }
    let mut target_refs: Vec<&str> = Vec::new();
    let mut k: usize = 0;
    while k < target.len()
        invariant
            0 <= k <= target@.len(),
            strs_seq(target_refs@) == strings_seq(target@).subrange(0, k as int),
        decreases target@.len() - k,
    {
        let ghost before = target_refs@;
        target_refs.push(target[k].as_str());
        assert(strs_seq(target_refs@) =~= strs_seq(before).push(target@[k as int]@));
        k = k + 1;
        assert(strs_seq(target_refs@) =~= strings_seq(target@).subrange(0, k as int));
    }
    assert(strings_seq(target@).subrange(0, k as int) =~= strings_seq(target@));
    let mut source: Vec<&str> = Vec::new();
    let mut k: usize = 0;
    while k < words.len()
        invariant
            ws == Seq::new(words@.len(), |k: int| words@[k]@),
            0 <= k <= words@.len(),
            strs_seq(source@) == word_texts(ws).subrange(0, k as int),
        decreases words@.len() - k,
    {
        let ghost before = source@;
        source.push(words[k].text.as_str());
        assert(strs_seq(source@) =~= strs_seq(before).push(words@[k as int].text@));
        k = k + 1;
        assert(strs_seq(source@) =~= word_texts(ws).subrange(0, k as int));
    }
    assert(word_texts(ws).subrange(0, k as int) =~= word_texts(ws));
    let anchors = lcs_anchors(source.as_slice(), target_refs.as_slice());
    let mut out: Vec<Token> = Vec::new();
    let mut idx: usize = 0;
    while idx < target.len()
        invariant
            ws == Seq::new(words@.len(), |k: int| words@[k]@),
            strings_seq(target@) == ws_words(corrected@),
            pairs_view(anchors@) == lcs_trace(word_texts(ws), ws_words(corrected@), 0, 0),
            0 <= idx <= target@.len(),
            tokens_view(out@) == latin_tokens_spec(ws, corrected@).subrange(0, idx as int),
        decreases target@.len() - idx,
    {
        let t = Token { text: target[idx].clone(), anchor: anchor_for(&anchors, idx) };
        let ghost before = out@;
        out.push(t);
        assert(tokens_view(out@) =~= tokens_view(before).push(t@));
        idx = idx + 1;
        assert(tokens_view(out@) =~= latin_tokens_spec(ws, corrected@).subrange(0, idx as int));
    }
    assert(latin_tokens_spec(ws, corrected@).subrange(0, idx as int) =~= latin_tokens_spec(
        ws,
        corrected@,
    ));
    out
}

/// Whether `needle` occurs in `chars` at `cursor`.
pub open spec fn starts_at(chars: Seq<char>, cursor: int, needle: Seq<char>) -> bool {
    0 <= cursor && cursor + needle.len() <= chars.len() && chars.subrange(
        cursor,
        cursor + needle.len(),
    ) == needle
}

/// Index of the first source word at or after `from` whose text (without
/// white space) is non-empty and occurs at `cursor`, or -1.
pub open spec fn cjk_match(texts: Seq<Seq<char>>, chars: Seq<char>, cursor: int, from: int) -> int
    decreases texts.len() - from,
{
    if from < 0 || from >= texts.len() {
        -1
    } else if remove_ws(texts[from]).len() > 0 && starts_at(chars, cursor, remove_ws(texts[from])) {
        from
    } else {
        cjk_match(texts, chars, cursor, from + 1)
    }
}

/// CJK correction tokens from `cursor` on, with source words from `src` on
/// still available: a source word whose text occurs at the cursor becomes
/// an anchored token and the search goes on after it; otherwise the
/// character at the cursor is a new token.
pub open spec fn cjk_tokens_from(texts: Seq<Seq<char>>, chars: Seq<char>, cursor: int, src: int) -> Seq<
    TokenView,
>
    decreases chars.len() - cursor,
{
    if cursor < 0 || cursor >= chars.len() {
        Seq::empty()
    } else {
        let k = cjk_match(texts, chars, cursor, src);
        let w = if 0 <= k < texts.len() {
            remove_ws(texts[k])
        } else {
            Seq::empty()
        };
        if k >= 0 && w.len() > 0 && cursor + w.len() <= chars.len() {
            seq![TokenView { text: texts[k], anchor: Some(k as usize) }] + cjk_tokens_from(
                texts,
                chars,
                cursor + w.len(),
                k + 1,
            )
        } else {
            seq![TokenView { text: seq![chars[cursor]], anchor: None }] + cjk_tokens_from(
                texts,
                chars,
                cursor + 1,
                src,
            )
        }
    }
}

pub proof fn lemma_cjk_match(texts: Seq<Seq<char>>, chars: Seq<char>, cursor: int, from: int)
    requires
        0 <= from,
    ensures
        cjk_match(texts, chars, cursor, from) == -1 || (from <= cjk_match(texts, chars, cursor, from)
            < texts.len() && remove_ws(texts[cjk_match(texts, chars, cursor, from)]).len() > 0
            && starts_at(chars, cursor, remove_ws(texts[cjk_match(texts, chars, cursor, from)]))),
    decreases texts.len() - from,
{
    if from < texts.len() && !(remove_ws(texts[from]).len() > 0 && starts_at(
        chars,
        cursor,
        remove_ws(texts[from]),
    )) {
        lemma_cjk_match(texts, chars, cursor, from + 1);
    }
}

fn occurs_at(chars: &Vec<char>, cursor: usize, needle: &Vec<char>) -> (r: bool)
    ensures
        r == starts_at(chars@, cursor as int, needle@),
{
    if cursor > chars.len() || needle.len() > chars.len() - cursor {
        return false;
    }
    let cl = chars.len();
    let mut k: usize = 0;
    while k < needle.len()
        invariant
            cl == chars@.len(),
            cursor + needle@.len() <= chars@.len(),
            0 <= k <= needle@.len(),
            forall|q: int| 0 <= q < k ==> chars@[cursor + q] == needle@[q],
        decreases needle@.len() - k,
    {
        if chars[cursor + k] != needle[k] {
            assert(chars@.subrange(cursor as int, cursor + needle@.len())[k as int] != needle@[k as int]);
            return false;
        }
        k = k + 1;
    }
    assert(chars@.subrange(cursor as int, cursor + needle@.len()) =~= needle@);
    true
}

pub open spec fn texts_of(words: Seq<Word>) -> Seq<Seq<char>> {
    Seq::new(words.len(), |k: int| words[k].text@)
}

fn find_match(words: &[Word], needles: &Vec<Vec<char>>, chars: &Vec<char>, cursor: usize, from: usize) -> (r:
    Option<usize>)
    requires
        needles@.len() == words@.len(),
        from <= words@.len(),
        forall|k: int| 0 <= k < needles@.len() ==> (#[trigger] needles@[k])@ == remove_ws(words@[k].text@),
    ensures
        match r {
            Some(k) => k as int == cjk_match(texts_of(words@), chars@, cursor as int, from as int),
            None => cjk_match(texts_of(words@), chars@, cursor as int, from as int) == -1,
        },
{
    let ghost texts = texts_of(words@);
    let mut k: usize = from;
    while k < needles.len()
        invariant
            texts == texts_of(words@),
            needles@.len() == words@.len(),
            forall|q: int| 0 <= q < needles@.len() ==> (#[trigger] needles@[q])@ == remove_ws(words@[q].text@),
            from <= k <= needles@.len(),
            cjk_match(texts, chars@, cursor as int, k as int) == cjk_match(
                texts,
                chars@,
                cursor as int,
                from as int,
            ),
        decreases needles@.len() - k,
    {
        assert(texts[k as int] == words@[k as int].text@);
        if needles[k].len() > 0 && occurs_at(chars, cursor, &needles[k]) {
            return Some(k);
        }
        k = k + 1;
    }
    None
}

/// The CJK correction tokens of a sentence.
pub open spec fn cjk_tokens_spec(words: Seq<Word>, corrected: Seq<char>) -> Seq<TokenView> {
    cjk_tokens_from(texts_of(words), remove_ws(corrected), 0, 0)
}

fn cjk_tokens(words: &[Word], corrected: &str) -> (r: Vec<Token>)
    ensures
        tokens_view(r@) == cjk_tokens_spec(words@, corrected@),
{
    let ghost texts = texts_of(words@);
    let chars = chars_of(without_whitespace(corrected).as_str());
    let mut needles: Vec<Vec<char>> = Vec::new();
    let mut q: usize = 0;
    while q < words.len()
        invariant
            0 <= q <= words@.len(),
            needles@.len() == q,
            forall|k: int| 0 <= k < q ==> (#[trigger] needles@[k])@ == remove_ws(words@[k].text@),
        decreases words@.len() - q,
    {
        needles.push(chars_of(without_whitespace(words[q].text.as_str()).as_str()));
        q = q + 1;
    }
    let n = chars.len();
    let mut tokens: Vec<Token> = Vec::new();
    let mut cursor: usize = 0;
    let mut src: usize = 0;
    while cursor < n
        invariant
            texts == texts_of(words@),
            n == chars@.len(),
            chars@ == remove_ws(corrected@),
            needles@.len() == words@.len(),
            forall|k: int| 0 <= k < needles@.len() ==> (#[trigger] needles@[k])@ == remove_ws(words@[k].text@),
            0 <= cursor <= n,
            src <= words@.len(),
            tokens_view(tokens@) + cjk_tokens_from(texts, chars@, cursor as int, src as int)
                == cjk_tokens_spec(words@, corrected@),
        decreases n - cursor,
    {
        proof {
            lemma_cjk_match(texts, chars@, cursor as int, src as int);
        }
        let ghost before = tokens@;
        match find_match(words, &needles, &chars, cursor, src) {
            Some(k) => {
                let w = needles[k].len();
                assert(texts[k as int] == words@[k as int].text@);
                let t = Token { text: words[k].text.clone(), anchor: Some(k) };
                tokens.push(t);
                assert(tokens_view(tokens@) =~= tokens_view(before).push(t@));
                assert(tokens_view(tokens@) + cjk_tokens_from(texts, chars@, cursor + w, k + 1)
                    =~= tokens_view(before) + cjk_tokens_from(texts, chars@, cursor as int, src as int));
                cursor = cursor + w;
                src = k + 1;
            },
            None => {
                let mut one = String::new();
                push_char(&mut one, chars[cursor]);
                let t = Token { text: one, anchor: None };
                tokens.push(t);
                assert(tokens_view(tokens@) =~= tokens_view(before).push(t@));
                assert(t@.text =~= seq![chars@[cursor as int]]);
                assert(tokens_view(tokens@) + cjk_tokens_from(texts, chars@, cursor + 1, src as int)
                    =~= tokens_view(before) + cjk_tokens_from(texts, chars@, cursor as int, src as int));
                cursor = cursor + 1;
            },
        }
    }
    assert(tokens_view(tokens@) =~= tokens_view(tokens@) + cjk_tokens_from(
        texts,
        chars@,
        cursor as int,
        src as int,
    ));
    tokens
}

/// What correcting a sentence's text does to its words.
#[derive(Debug)]
pub enum RebindPlan {
    /// The corrected text is blank, or there were no words: no words remain.
    Empty,
    /// The corrected text is what the words already say: they stay as they
    /// are.
    Unchanged,
    /// The new words, each anchored to the source word it keeps, if any.
    Tokens(Vec<Token>),
}

pub open spec fn has_rebind_cjk(s: Seq<char>) -> bool {
    exists|i: int| 0 <= i < s.len() && rebind_cjk(#[trigger] s[i])
}

/// The text the words say now: run together for CJK text, else joined with
/// spaces.
pub open spec fn old_surface(texts: Seq<Seq<char>>, cjk: bool) -> Seq<char> {
    if cjk {
        concat_all(texts)
    } else {
        join_with(texts, seq![' '])
    }
}

fn any_cjk(s: &str) -> (r: bool)
    ensures
        r == has_rebind_cjk(s@),
{
    let n = s.unicode_len();
    let mut i: usize = 0;
    while i < n
        invariant
            n == s@.len(),
            0 <= i <= n,
            forall|k: int| 0 <= k < i ==> !rebind_cjk(#[trigger] s@[k]),
        decreases n - i,
    {
        if is_cjk(s.get_char(i)) {
            return true;
        }
        i = i + 1;
    }
    false
}

fn surface(words: &[Word], cjk: bool) -> (r: String)
    ensures
        r@ == old_surface(texts_of(words@), cjk),
{
    let ghost texts = texts_of(words@);
    let mut out = String::new();
    let mut i: usize = 0;
    while i < words.len()
        invariant
            texts == texts_of(words@),
            0 <= i <= words@.len(),
            out@ == old_surface(texts.subrange(0, i as int), cjk),
        decreases words@.len() - i,
    {
        proof {
            assert(texts.subrange(0, i + 1) =~= texts.subrange(0, i as int).push(texts[i as int]));
            lemma_concat_push(texts.subrange(0, i as int), texts[i as int]);
            lemma_join_with_push(texts.subrange(0, i as int), seq![' '], texts[i as int]);
        }
        if !cjk && i > 0 {
            push_char(&mut out, ' ');
        }
        push_str(&mut out, words[i].text.as_str());
        i = i + 1;
        assert(out@ =~= old_surface(texts.subrange(0, i as int), cjk));
    }
    assert(texts.subrange(0, i as int) =~= texts);
    out
}

/// Plans the rebinding of a corrected sentence onto its timed words. The
/// text is trimmed first. CJK text (any CJK character) is matched against
/// the words character by character; other text is split on white space and
/// matched word by word through a longest common subsequence.
pub fn rebind_plan(words: &[Word], corrected: &str) -> (r: RebindPlan)
    requires
        words@.len() < usize::MAX,
    ensures
        ({
            let c = trimmed(corrected@);
            let cjk = has_rebind_cjk(c);
            if c.len() == 0 || words@.len() == 0 {
                r is Empty
            } else if old_surface(texts_of(words@), cjk) == c {
                r is Unchanged
            } else if cjk {
                r matches RebindPlan::Tokens(t) && tokens_view(t@) == cjk_tokens_spec(words@, c)
            } else {
                r matches RebindPlan::Tokens(t) && tokens_view(t@) == latin_tokens_spec(
                    Seq::new(words@.len(), |k: int| words@[k]@),
                    c,
                )
            }
        }),
{
    let c = trim(corrected);
    if c.unicode_len() == 0 || words.len() == 0 {
        return RebindPlan::Empty;
    }
    let cjk = any_cjk(c);
    let old = surface(words, cjk);
    if str_eq(old.as_str(), c) {
        return RebindPlan::Unchanged;
    }
    if cjk {
        RebindPlan::Tokens(cjk_tokens(words, c))
    } else {
        RebindPlan::Tokens(latin_tokens(words, c))
    }
}

pub proof fn lemma_pair_for_target(pairs: Seq<(int, int)>, idx: int, k: int)
    requires
        0 <= k,
    ensures
        pair_for_target(pairs, idx, k) == -1 || (k <= pair_for_target(pairs, idx, k) < pairs.len()
            && pairs[pair_for_target(pairs, idx, k)].1 == idx),
    decreases pairs.len() - k,
{
    if k < pairs.len() && pairs[k].1 != idx {
        lemma_pair_for_target(pairs, idx, k + 1);
    }
}

/// A Latin correction token anchored to a source word says the same as that
/// word, so the word keeps its id and timing only where the text did not
/// change; and anchors keep the order of the source words.
pub proof fn law_latin_anchors_match(ws: Seq<WordView>, corrected: Seq<char>, k: int, l: int)
    requires
        ws.len() <= usize::MAX,
        0 <= k < l < latin_tokens_spec(ws, corrected).len(),
        latin_tokens_spec(ws, corrected)[k].anchor is Some,
        latin_tokens_spec(ws, corrected)[l].anchor is Some,
    ensures
        ({
            let tk = latin_tokens_spec(ws, corrected);
            let a = tk[k].anchor->0 as int;
            let b = tk[l].anchor->0 as int;
            &&& 0 <= a < ws.len()
            &&& ws[a].text == tk[k].text
            &&& a < b
        }),
{
    let target = ws_words(corrected);
    let s = word_texts(ws);
    let pairs = lcs_trace(s, target, 0, 0);
    lemma_lcs_trace(s, target, 0, 0);
    lemma_pair_for_target(pairs, k, 0);
    lemma_pair_for_target(pairs, l, 0);
    let pk = pair_for_target(pairs, k, 0);
    let pl = pair_for_target(pairs, l, 0);
    assert(pairs[pk].1 == k && pairs[pl].1 == l);
    if pl < pk {
        assert(pairs[pl].1 < pairs[pk].1);
    }
    assert(pk != pl);
    let (a, b) = pairs[pk];
    assert(s[a] == target[b]);
    let (c, d) = pairs[pl];
    assert(0 <= c < s.len());
    assert(latin_tokens_spec(ws, corrected)[k].anchor == Some(a as usize));
    assert(latin_tokens_spec(ws, corrected)[l].anchor == Some(c as usize));
    assert(latin_tokens_spec(ws, corrected)[k].text == target[k]);
    assert(pairs[pk].0 < pairs[pl].0);
}


/// Anchors of CJK tokens found from `src` on point at source words from
/// `src` on whose text the token carries, in strictly increasing order.
pub proof fn lemma_cjk_anchors(texts: Seq<Seq<char>>, chars: Seq<char>, cursor: int, src: int)
    requires
        0 <= src,
        texts.len() <= usize::MAX,
    ensures
        ({
            let toks = cjk_tokens_from(texts, chars, cursor, src);
            &&& forall|i: int|
                0 <= i < toks.len() && (#[trigger] toks[i]).anchor is Some ==> src <= toks[i].anchor.unwrap()
                    < texts.len() && toks[i].text == texts[toks[i].anchor.unwrap() as int]
            &&& forall|i: int, j: int|
                0 <= i < j < toks.len() && (#[trigger] toks[i]).anchor is Some && (#[trigger] toks[j]).anchor is Some
                    ==> toks[i].anchor.unwrap() < toks[j].anchor.unwrap()
        }),
    decreases chars.len() - cursor,
{
    if 0 <= cursor < chars.len() {
        lemma_cjk_match(texts, chars, cursor, src);
        let k = cjk_match(texts, chars, cursor, src);
        let w = if 0 <= k < texts.len() {
            remove_ws(texts[k])
        } else {
            Seq::empty()
        };
        let toks = cjk_tokens_from(texts, chars, cursor, src);
        if k >= 0 && w.len() > 0 && cursor + w.len() <= chars.len() {
            lemma_cjk_anchors(texts, chars, cursor + w.len(), k + 1);
            let rest = cjk_tokens_from(texts, chars, cursor + w.len(), k + 1);
            assert(toks =~= seq![TokenView { text: texts[k], anchor: Some(k as usize) }] + rest);
            assert forall|i: int|
                0 <= i < toks.len() && (#[trigger] toks[i]).anchor is Some implies src <= toks[i].anchor.unwrap()
                    < texts.len() && toks[i].text == texts[toks[i].anchor.unwrap() as int] by {
                if i > 0 {
                    assert(toks[i] == rest[i - 1]);
                }
            }
            assert forall|i: int, j: int|
                0 <= i < j < toks.len() && (#[trigger] toks[i]).anchor is Some && (#[trigger] toks[j]).anchor is Some
                    implies toks[i].anchor.unwrap() < toks[j].anchor.unwrap() by {
                assert(toks[j] == rest[j - 1]);
                if i > 0 {
                    assert(toks[i] == rest[i - 1]);
                }
            }
        } else {
            lemma_cjk_anchors(texts, chars, cursor + 1, src);
            let rest = cjk_tokens_from(texts, chars, cursor + 1, src);
            assert(toks =~= seq![TokenView { text: seq![chars[cursor]], anchor: None }] + rest);
            assert forall|i: int|
                0 <= i < toks.len() && (#[trigger] toks[i]).anchor is Some implies src <= toks[i].anchor.unwrap()
                    < texts.len() && toks[i].text == texts[toks[i].anchor.unwrap() as int] by {
                assert(toks[i] == rest[i - 1]);
            }
            assert forall|i: int, j: int|
                0 <= i < j < toks.len() && (#[trigger] toks[i]).anchor is Some && (#[trigger] toks[j]).anchor is Some
                    implies toks[i].anchor.unwrap() < toks[j].anchor.unwrap() by {
                assert(toks[j] == rest[j - 1]);
                assert(toks[i] == rest[i - 1]);
            }
        }
    }
}

/// Rebinding a corrected CJK text keeps words whole: every anchored token
/// carries exactly the text of the source word it is anchored to, so that
/// word's id and timing go with its own text, and anchors strictly increase
/// along the tokens, so no word is used twice and the order is kept.
pub proof fn law_cjk_anchors_match(words: Seq<Word>, corrected: Seq<char>)
    requires
        words.len() <= usize::MAX,
    ensures
        ({
            let toks = cjk_tokens_spec(words, corrected);
            &&& forall|i: int|
                0 <= i < toks.len() && (#[trigger] toks[i]).anchor is Some ==> toks[i].anchor.unwrap()
                    < words.len() && toks[i].text == words[toks[i].anchor.unwrap() as int].text@
            &&& forall|i: int, j: int|
                0 <= i < j < toks.len() && (#[trigger] toks[i]).anchor is Some && (#[trigger] toks[j]).anchor is Some
                    ==> toks[i].anchor.unwrap() < toks[j].anchor.unwrap()
        }),
{
    lemma_cjk_anchors(texts_of(words), remove_ws(corrected), 0, 0);
}
} // verus!
