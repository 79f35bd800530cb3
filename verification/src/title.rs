//! Title overlays: colour and text helpers for the ASS renderer.

use vstd::prelude::*;

use crate::text::{
    lemma_utf8_prefix_grows, utf8_len, utf8_width, hex2, hex_digit_value, hex_value, is_ascii_hex, push_char, push_hex2, push_str, trim,
    trimmed,
};

verus! {

/// Default title font size.
pub fn default_font_size() -> (r: u32)
    ensures
        r == 64,
{
    64
}

/// Default title colour: opaque white.
pub fn default_color() -> (r: String)
    ensures
        r@ == "#FFFFFF"@,
{
    "#FFFFFF".to_string()
}

/// Default title backing: 60% black.
pub fn default_background() -> (r: String)
    ensures
        r@ == "#00000099"@,
{
    "#00000099".to_string()
}

/// `#RRGGBB` or `#RRGGBBAA`.
pub open spec fn is_hex_color(s: Seq<char>) -> bool {
    &&& (s.len() == 7 || s.len() == 9)
    &&& s[0] == '#'
    &&& forall|i: int| 1 <= i < s.len() ==> is_ascii_hex(#[trigger] s[i])
}

/// Whether `value` is `#RRGGBB` or `#RRGGBBAA`.
pub fn valid_hex_color(value: &str) -> (r: bool)
    ensures
        r == is_hex_color(value@),
{
    let n = value.unicode_len();
    if !(n == 7 || n == 9) {
        return false;
    }
    if value.get_char(0) != '#' {
        return false;
    }
    let mut i: usize = 1;
    while i < n
        invariant
            n == value@.len(),
            1 <= i <= n,
            forall|k: int| 1 <= k < i ==> is_ascii_hex(#[trigger] value@[k]),
        decreases n - i,
    {
        if !crate::text::is_hex_char(value.get_char(i)) {
            return false;
        }
        i = i + 1;
    }
    true
}

pub open spec fn is_ascii_char(c: char) -> bool {
    (c as u32) < 128
}

/// `u8::from_str_radix(pair, 16)` for a two-character text, 255 when it
/// does not parse.
pub open spec fn alpha_of(a: char, b: char) -> nat {
    if a == '+' && is_ascii_hex(b) {
        hex_value(b)
    } else if is_ascii_hex(a) && is_ascii_hex(b) {
        hex_value(a) * 16 + hex_value(b)
    } else {
        255
    }
}

/// Whether `k` characters of `s` take exactly `b` bytes.
pub open spec fn bytes_at(s: Seq<char>, k: int, b: nat) -> bool {
    0 <= k <= s.len() && utf8_len(s.subrange(0, k)) == b
}

/// The opacity byte of a colour whose byte 7 falls after character `k7`:
/// the inverse of the two-character `AA` component that follows it, fully
/// opaque when there is none (or it is not two ASCII characters, when
/// `u8::from_str_radix` refuses it).
pub open spec fn ass_opacity(s: Seq<char>, k7: int) -> nat {
    if k7 + 2 <= s.len() && is_ascii_char(s[k7]) && is_ascii_char(s[k7 + 1]) {
        (255 - alpha_of(s[k7], s[k7 + 1])) as nat
    } else {
        0
    }
}

/// `&HAABBGGRR&` of a `#RRGGBB[AA]` colour whose bytes 1, 3, 5 and 7 fall
/// after characters `k1`, `k3`, `k5` and `k7`: the channel texts are the
/// byte ranges 1..3, 3..5 and 5..7.
pub open spec fn ass_color_spec(s: Seq<char>, k1: int, k3: int, k5: int, k7: int) -> Seq<char> {
    "&H"@ + hex2(ass_opacity(s, k7)) + s.subrange(k5, k7) + s.subrange(k3, k5) + s.subrange(k1, k3)
        + "&"@
}

fn utf8_width_of(c: char) -> (r: usize)
    ensures
        r == utf8_width(c),
{
    let u = c as u32;
    if u < 0x80 {
        1
    } else if u < 0x800 {
        2
    } else if u < 0x10000 {
        3
    } else {
        4
    }
}

/// Converts a CSS `#RRGGBB[AA]` colour to the ASS `&HAABBGGRR&` form. The
/// channel digits are copied as written, cut at byte offsets 1, 3, 5 and 7;
/// the text must reach byte 7 and each cut must fall between characters.
pub fn ass_color(value: &str) -> (r: String)
    requires
        exists|k: int| bytes_at(value@, k, 1),
        exists|k: int| bytes_at(value@, k, 3),
        exists|k: int| bytes_at(value@, k, 5),
        exists|k: int| bytes_at(value@, k, 7),
    ensures
        forall|k1: int, k3: int, k5: int, k7: int|
            bytes_at(value@, k1, 1) && bytes_at(value@, k3, 3) && bytes_at(value@, k5, 5)
                && bytes_at(value@, k7, 7) ==> r@ == ass_color_spec(value@, k1, k3, k5, k7),
{
    let ghost s = value@;
    let n = value.unicode_len();
    let mut k1: usize = 0;
    let mut k3: usize = 0;
    let mut k5: usize = 0;
    let mut k7: usize = 0;
    let mut acc: usize = 0;
    let mut i: usize = 0;
    while i < n && acc < 7
        invariant
            n == s.len(),
            s == value@,
            0 <= i <= n,
            acc == utf8_len(s.subrange(0, i as int)),
            acc <= 10,
            acc >= 1 ==> bytes_at(s, k1 as int, 1),
            acc >= 3 ==> bytes_at(s, k3 as int, 3),
            acc >= 5 ==> bytes_at(s, k5 as int, 5),
            acc >= 7 ==> bytes_at(s, k7 as int, 7),
            exists|k: int| bytes_at(s, k, 1),
            exists|k: int| bytes_at(s, k, 3),
            exists|k: int| bytes_at(s, k, 5),
            exists|k: int| bytes_at(s, k, 7),
        decreases n - i,
    {
        assert(s.subrange(0, i + 1).drop_last() =~= s.subrange(0, i as int));
        let w = utf8_width_of(value.get_char(i));
        let next = acc + w;
        proof {
            // A step never jumps over a cut: that would cut a character.
            if acc < 1 {
                lemma_no_skip(s, i as int, 1);
            }
            if acc < 3 {
                lemma_no_skip(s, i as int, 3);
            }
            if acc < 5 {
                lemma_no_skip(s, i as int, 5);
            }
            if acc < 7 {
                lemma_no_skip(s, i as int, 7);
            }
        }
        i = i + 1;
        if next == 1 {
            k1 = i;
        }
        if next == 3 {
            k3 = i;
        }
        if next == 5 {
            k5 = i;
        }
        if next == 7 {
            k7 = i;
        }
        acc = next;
    }
    proof {
        if acc < 7 {
            let k = choose|k: int| bytes_at(s, k, 7);
            assert(exists|k: int| bytes_at(s, k, 7));
            if k < i {
                lemma_utf8_prefix_grows(s, k, i as int);
            }
            assert(i == n);
            assert(false);
        }
    }
    proof {
        if k3 < k1 {
            lemma_utf8_prefix_grows(s, k3 as int, k1 as int);
        }
        if k5 < k3 {
            lemma_utf8_prefix_grows(s, k5 as int, k3 as int);
        }
        if k7 < k5 {
            lemma_utf8_prefix_grows(s, k7 as int, k5 as int);
        }
    }
    let mut opacity: u8 = 0;
    if k7 < n && n - k7 >= 2 {
        let a = value.get_char(k7);
        let b = value.get_char(k7 + 1);
        if (a as u32) < 128 && (b as u32) < 128 {
            let alpha: u8 = if a == '+' && crate::text::is_hex_char(b) {
                hex_digit_value(b)
            } else if crate::text::is_hex_char(a) && crate::text::is_hex_char(b) {
                hex_digit_value(a) * 16 + hex_digit_value(b)
            } else {
                255
            };
            opacity = 255 - alpha;
        }
    }
    let mut out = String::new();
    push_str(&mut out, "&H");
    push_hex2(&mut out, opacity);
    push_str(&mut out, value.substring_char(k5, k7));
    push_str(&mut out, value.substring_char(k3, k5));
    push_str(&mut out, value.substring_char(k1, k3));
    push_str(&mut out, "&");
    proof {
        assert forall|j1: int, j3: int, j5: int, j7: int|
            bytes_at(s, j1, 1) && bytes_at(s, j3, 3) && bytes_at(s, j5, 5) && bytes_at(s, j7, 7)
                implies j1 == k1 && j3 == k3 && j5 == k5 && j7 == k7 by {
            lemma_bytes_at_unique(s, j1, k1 as int, 1);
            lemma_bytes_at_unique(s, j3, k3 as int, 3);
            lemma_bytes_at_unique(s, j5, k5 as int, 5);
            lemma_bytes_at_unique(s, j7, k7 as int, 7);
        }
    }
    out
}

/// When `b` bytes is some prefix of `s`, the prefix lengths step onto it
/// rather than over it.
pub proof fn lemma_no_skip(s: Seq<char>, i: int, b: nat)
    requires
        0 <= i < s.len(),
        exists|k: int| bytes_at(s, k, b),
        utf8_len(s.subrange(0, i)) < b,
    ensures
        utf8_len(s.subrange(0, i + 1)) <= b,
{
    let k = choose|k: int| bytes_at(s, k, b);
    if k <= i {
        if k < i {
            lemma_utf8_prefix_grows(s, k, i);
        }
    } else if k > i + 1 {
        lemma_utf8_prefix_grows(s, i + 1, k);
    }
}

/// At most one character count takes a given number of bytes.
pub proof fn lemma_bytes_at_unique(s: Seq<char>, j: int, k: int, b: nat)
    requires
        bytes_at(s, j, b),
        bytes_at(s, k, b),
    ensures
        j == k,
{
    if j < k {
        lemma_utf8_prefix_grows(s, j, k);
    } else if k < j {
        lemma_utf8_prefix_grows(s, k, j);
    }
}

/// ASS escaping of one character.
pub open spec fn ass_escape_char(c: char) -> Seq<char> {
    if c == '\\' {
        seq!['\\', '\\']
    } else if c == '\u{7b}' {
        seq!['\\', '\u{7b}']
    } else if c == '\u{7d}' {
        seq!['\\', '\u{7d}']
    } else if c == '\n' {
        seq!['\\', 'N']
    } else {
        seq![c]
    }
}

/// ASS escaping of a text: backslashes and braces are escaped and newlines
/// become `\N`.
pub open spec fn ass_escape(s: Seq<char>) -> Seq<char>
    decreases s.len(),
{
    if s.len() == 0 {
        Seq::empty()
    } else {
        ass_escape(s.drop_last()) + ass_escape_char(s.last())
    }
}

/// Trimmed title text, escaped for an ASS `Dialogue` line.
pub fn ass_text(value: &str) -> (r: String)
    ensures
        r@ == ass_escape(trimmed(value@)),
{
    let t = trim(value);
    let n = t.unicode_len();
    let mut out = String::new();
    let mut i: usize = 0;
    while i < n
        invariant
            n == t@.len(),
            0 <= i <= n,
            out@ == ass_escape(t@.subrange(0, i as int)),
        decreases n - i,
    {
        let c = t.get_char(i);
        let ghost pre = out@;
        if c == '\\' {
            push_char(&mut out, '\\');
            push_char(&mut out, '\\');
        } else if c == '\u{7b}' {
            push_char(&mut out, '\\');
            push_char(&mut out, '\u{7b}');
        } else if c == '\u{7d}' {
            push_char(&mut out, '\\');
            push_char(&mut out, '\u{7d}');
        } else if c == '\n' {
            push_char(&mut out, '\\');
            push_char(&mut out, 'N');
        } else {
            push_char(&mut out, c);
        }
        assert(t@.subrange(0, i + 1).drop_last() =~= t@.subrange(0, i as int));
        assert(out@ =~= pre + ass_escape_char(c));
        i = i + 1;
    }
    assert(t@.subrange(0, n as int) =~= t@);
    out
}

} // verus!
