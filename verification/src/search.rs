//! Text search: case-insensitive substring search and regular expressions.

use vstd::prelude::*;

use regex::Regex;

verus! {

#[verifier::external_type_specification]
#[verifier::external_body]
pub struct ExRegex(Regex);

#[verifier::external_type_specification]
#[verifier::external_body]
pub struct ExRegexError(regex::Error);

/// Whether `regex::Regex::new` accepts `pattern`: it is valid syntax and
/// compiles within the default size limit.
pub uninterp spec fn regex_accepts(pattern: Seq<char>) -> bool;

/// Whether the regex compiled from `pattern` matches anywhere in `haystack`
/// (`regex::Regex::is_match`).
pub uninterp spec fn regex_matches(pattern: Seq<char>, haystack: Seq<char>) -> bool;

/// The text that `regex::Regex::replace_all` gives when the regex compiled
/// from `pattern` has every match in `haystack` replaced by `rep` (with `$`
/// group references in `rep` expanded).
pub uninterp spec fn regex_replace_all(pattern: Seq<char>, haystack: Seq<char>, rep: Seq<char>) -> Seq<char>;

/// The lower-case form of a text (`str::to_lowercase`).
pub uninterp spec fn lowercase_of(s: Seq<char>) -> Seq<char>;

/// A compiled regular expression together with the pattern it was compiled
/// from. Only `Pattern::compile` builds one.
pub struct Pattern {
    source: String,
    re: Regex,
}

impl Pattern {
    pub closed spec fn source(&self) -> Seq<char> {
        self.source@
    }

    /// Compiles `pattern` with `regex::Regex::new`. The call succeeds exactly
    /// when the crate accepts the pattern; the result remembers the pattern.
    #[verifier::external_body]
    pub fn compile(pattern: &str) -> (r: Result<Pattern, regex::Error>)
        ensures
            r is Ok <==> regex_accepts(pattern@),
            r matches Ok(p) ==> p.source() == pattern@,
    {
        match Regex::new(pattern) {
            Ok(re) => Ok(Pattern { source: pattern.to_string(), re }),
            Err(e) => Err(e),
        }
    }

    /// `regex::Regex::is_match`: whether the pattern matches anywhere in
    /// `haystack`.
    #[verifier::external_body]
    pub fn is_match(&self, haystack: &str) -> (r: bool)
        ensures
            r == regex_matches(self.source(), haystack@),
    {
        self.re.is_match(haystack)
    }

    /// `regex::Regex::replace_all`: every match in `haystack` replaced by
    /// `rep`, as an owned text.
    #[verifier::external_body]
    pub fn replace_all(&self, haystack: &str, rep: &str) -> (r: String)
        ensures
            r@ == regex_replace_all(self.source(), haystack@, rep@),
    {
        self.re.replace_all(haystack, rep).into_owned()
    }
}

/// The message of a `regex::Error` (its `Display` text). Nothing is stated
/// of the text.
#[verifier::external_body]
pub fn regex_error_message(e: &regex::Error) -> String {
    e.to_string()
}

/// `str::to_lowercase`.
#[verifier::external_body]
pub fn lowercase(s: &str) -> (r: String)
    ensures
        r@ == lowercase_of(s@),
{
    s.to_lowercase()
}

/// Whether `needle` occurs in `hay` as a contiguous run (`str::contains`).
pub open spec fn contains_seq(hay: Seq<char>, needle: Seq<char>) -> bool {
    exists|i: int| 0 <= i && i + needle.len() <= hay.len() && #[trigger] hay.subrange(i, i + needle.len()) == needle
}

/// Whether `needle` occurs at position `i` of `hay`.
fn occurs_at(hay: &Vec<char>, needle: &Vec<char>, i: usize) -> (r: bool)
    requires
        i + needle@.len() <= hay@.len(),
    ensures
        r == (hay@.subrange(i as int, i + needle@.len()) == needle@),
{
    let hl = hay.len();
    let mut k: usize = 0;
    while k < needle.len()
        invariant
            hl == hay@.len(),
            i + needle@.len() <= hay@.len(),
            0 <= k <= needle@.len(),
            forall|j: int| 0 <= j < k ==> hay@[i + j] == needle@[j],
        decreases needle@.len() - k,
    {
        if hay[i + k] != needle[k] {
            assert(hay@.subrange(i as int, i + needle@.len())[k as int] != needle@[k as int]);
            return false;
        }
        k = k + 1;
    }
    assert(hay@.subrange(i as int, i + needle@.len()) =~= needle@);
    true
}

/// `s` with `to` put between every two characters and at both ends: what
/// replacing an empty text gives.
pub open spec fn replace_empty_spec(s: Seq<char>, to: Seq<char>) -> Seq<char>
    decreases s.len(),
{
    if s.len() == 0 {
        to
    } else {
        to + seq![s[0]] + replace_empty_spec(s.subrange(1, s.len() as int), to)
    }
}

/// `s` with each occurrence of `from` replaced by `to`, occurrences taken
/// from the left without overlap (`str::replace`). An empty `from` occurs
/// at every character boundary.
pub open spec fn replace_spec(s: Seq<char>, from: Seq<char>, to: Seq<char>) -> Seq<char>
    decreases s.len(),
{
    if from.len() == 0 {
        replace_empty_spec(s, to)
    } else if s.len() == 0 {
        s
    } else if from.len() <= s.len() && s.subrange(0, from.len() as int) == from {
        to + replace_spec(s.subrange(from.len() as int, s.len() as int), from, to)
    } else {
        seq![s[0]] + replace_spec(s.subrange(1, s.len() as int), from, to)
    }
}

/// `str::replace` with text arguments: every occurrence of `from` in `s`,
/// from the left and without overlap, replaced by `to`.
pub fn replace_text(s: &str, from: &str, to: &str) -> (r: String)
    ensures
        r@ == replace_spec(s@, from@, to@),
{
    let h = crate::text::chars_of(s);
    let n = crate::text::chars_of(from);
    let len = h.len();
    let flen = n.len();
    let mut out = String::new();
    let mut i: usize = 0;
    proof {
        assert(h@.subrange(0, len as int) =~= h@);
        assert(out@ + replace_spec(h@, from@, to@) =~= replace_spec(h@, from@, to@));
        assert(out@ + replace_empty_spec(h@, to@) =~= replace_empty_spec(h@, to@));
    }
    if flen == 0 {
        while i < len
            invariant
                h@ == s@,
                n@ == from@,
                len == h@.len(),
                from@.len() == 0,
                0 <= i <= len,
                out@ + replace_empty_spec(h@.subrange(i as int, len as int), to@)
                    == replace_empty_spec(h@, to@),
            decreases len - i,
        {
            proof {
                let rest = h@.subrange(i as int, len as int);
                assert(rest.subrange(1, rest.len() as int) =~= h@.subrange(i + 1, len as int));
                assert(rest[0] == h@[i as int]);
                assert(out@ + replace_empty_spec(rest, to@) =~= out@ + to@ + seq![h@[i as int]]
                    + replace_empty_spec(h@.subrange(i + 1, len as int), to@));
            }
            crate::text::push_str(&mut out, to);
            crate::text::push_char(&mut out, h[i]);
            assert(out@ + replace_empty_spec(h@.subrange(i + 1, len as int), to@)
                == replace_empty_spec(h@, to@));
            i = i + 1;
        }
        proof {
            assert(h@.subrange(len as int, len as int) =~= Seq::<char>::empty());
        }
        crate::text::push_str(&mut out, to);
        return out;
    }
    while i < len
        invariant
            h@ == s@,
            n@ == from@,
            len == h@.len(),
            flen == from@.len(),
            flen > 0,
            0 <= i <= len,
            out@ + replace_spec(h@.subrange(i as int, len as int), from@, to@)
                == replace_spec(h@, from@, to@),
        decreases len - i,
    {
        let ghost rest = h@.subrange(i as int, len as int);
        if flen <= len - i && occurs_at(&h, &n, i) {
            proof {
                assert(rest.subrange(0, flen as int) =~= h@.subrange(i as int, i + flen));
                assert(rest.subrange(flen as int, rest.len() as int) =~= h@.subrange(
                    i + flen,
                    len as int,
                ));
                assert(out@ + replace_spec(rest, from@, to@) =~= out@ + to@ + replace_spec(
                    h@.subrange(i + flen, len as int),
                    from@,
                    to@,
                ));
            }
            crate::text::push_str(&mut out, to);
            i = i + flen;
        } else {
            proof {
                if flen <= rest.len() {
                    assert(rest.subrange(0, flen as int) =~= h@.subrange(i as int, i + flen));
                }
                assert(rest.subrange(1, rest.len() as int) =~= h@.subrange(i + 1, len as int));
                assert(rest[0] == h@[i as int]);
                assert(out@ + replace_spec(rest, from@, to@) =~= out@ + seq![h@[i as int]]
                    + replace_spec(h@.subrange(i + 1, len as int), from@, to@));
            }
            crate::text::push_char(&mut out, h[i]);
            i = i + 1;
        }
    }
    proof {
        assert(h@.subrange(len as int, len as int) =~= Seq::<char>::empty());
        assert(out@ + Seq::<char>::empty() =~= out@);
    }
    out
}

/// `str::contains` with a text needle.
pub fn contains_text(hay: &str, needle: &str) -> (r: bool)
    ensures
        r == contains_seq(hay@, needle@),
{
    let h = crate::text::chars_of(hay);
    let n = crate::text::chars_of(needle);
    if n.len() > h.len() {
        return false;
    }
    if n.len() == 0 {
        assert(hay@.subrange(0, 0 + needle@.len() as int) =~= needle@);
        return true;
    }
    let hl = h.len();
    let last = hl - n.len();
    let mut i: usize = 0;
    while i <= last
        invariant
            h@ == hay@,
            n@ == needle@,
            last + n@.len() == h@.len(),
            hl == h@.len(),
            n@.len() > 0,
            0 <= i <= last + 1,
            forall|j: int| 0 <= j < i ==> #[trigger] h@.subrange(j, j + n@.len()) != n@,
        decreases last + 1 - i,
    {
        if occurs_at(&h, &n, i) {
            assert(h@.subrange(i as int, i + n@.len()) == n@);
            return true;
        }
        i = i + 1;
    }
    false
}

} // verus!
