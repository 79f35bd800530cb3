//! Caption visual presets: a fixed table of looks (colours, backing,
//! decoration, font) for burned-in captions, and the text helpers that
//! lay out caption words.

use vstd::prelude::*;

use crate::doc::{Word, WordView};
use crate::text::{
    hex_value, is_ascii_hex, ascii_alnum, is_ascii_alnum, is_whitespace, is_ws, push_char, push_str, str_eq,
    trim, trimmed,
};

verus! {

/// How a preset shows a line.
#[derive(Debug, Clone, Copy, PartialEq, Eq, Structural)]
pub enum CaptionMode {
    /// Whole line shown; the spoken word is highlighted (karaoke).
    Emphasis,
    /// Clean full-line caption, no per-word behaviour.
    Line,
}

#[derive(Debug, Clone, Copy, PartialEq, Eq, Structural)]
pub enum Deco {
    Underline,
    Highlight,
}

#[derive(Debug, Clone, Copy, PartialEq, Eq, Structural)]
pub enum PresetFont {
    Serif,
    Mono,
}

/// One caption look. Colours are CSS colour texts.
#[derive(Debug, Clone, Copy)]
pub struct CaptionPreset {
    pub id: &'static str,
    pub mode: CaptionMode,
    /// Body text colour (CSS `#rrggbb`).
    pub text: &'static str,
    /// Emphasized-word colour (emphasis mode).
    pub emphasis: Option<&'static str>,
    /// Full-line backing colour (CSS colour, may carry alpha).
    pub bg: Option<&'static str>,
    pub deco: Option<Deco>,
    pub deco_color: Option<&'static str>,
    pub font: Option<PresetFont>,
    pub italic: bool,
}

pub struct CaptionPresetView {
    pub id: Seq<char>,
    pub mode: CaptionMode,
    pub text: Seq<char>,
    pub emphasis: Option<Seq<char>>,
    pub bg: Option<Seq<char>>,
    pub deco: Option<Deco>,
    pub deco_color: Option<Seq<char>>,
    pub font: Option<PresetFont>,
    pub italic: bool,
}

pub open spec fn opt_static_view(o: Option<&'static str>) -> Option<Seq<char>> {
    match o {
        Some(s) => Some(s@),
        None => None,
    }
}

impl View for CaptionPreset {
    type V = CaptionPresetView;

    open spec fn view(&self) -> CaptionPresetView {
        CaptionPresetView {
            id: self.id@,
            mode: self.mode,
            text: self.text@,
            emphasis: opt_static_view(self.emphasis),
            bg: opt_static_view(self.bg),
            deco: self.deco,
            deco_color: opt_static_view(self.deco_color),
            font: self.font,
            italic: self.italic,
        }
    }
}

pub open spec fn presets_view(s: Seq<CaptionPreset>) -> Seq<CaptionPresetView> {
    Seq::new(s.len(), |i: int| s[i]@)
}

/// The preset table: ten word-emphasis looks, then eight line looks.
pub open spec fn preset_table() -> Seq<CaptionPresetView> {
    seq![
        CaptionPresetView {
            id: "em-yellow"@,
            mode: CaptionMode::Emphasis,
            text: "#ffffff"@,
            emphasis: Some("#ffe34f"@),
            bg: None,
            deco: None,
            deco_color: None,
            font: None,
            italic: false,
        },
        CaptionPresetView {
            id: "em-green"@,
            mode: CaptionMode::Emphasis,
            text: "#ffffff"@,
            emphasis: Some("#5affb6"@),
            bg: None,
            deco: None,
            deco_color: None,
            font: None,
            italic: false,
        },
        CaptionPresetView {
            id: "em-purple-black"@,
            mode: CaptionMode::Emphasis,
            text: "#ffffff"@,
            emphasis: Some("#cf96ff"@),
            bg: Some("rgba(0,0,0,0.72)"@),
            deco: None,
            deco_color: None,
            font: None,
            italic: false,
        },
        CaptionPresetView {
            id: "em-serif-black"@,
            mode: CaptionMode::Emphasis,
            text: "#ffffff"@,
            emphasis: Some("#63ffc7"@),
            bg: Some("rgba(0,0,0,0.72)"@),
            deco: None,
            deco_color: None,
            font: Some(PresetFont::Serif),
            italic: false,
        },
        CaptionPresetView {
            id: "em-underline"@,
            mode: CaptionMode::Emphasis,
            text: "#ffffff"@,
            emphasis: None,
            bg: Some("rgba(0,0,0,0.8)"@),
            deco: Some(Deco::Underline),
            deco_color: Some("#ffffff"@),
            font: None,
            italic: false,
        },
        CaptionPresetView {
            id: "em-blue-line"@,
            mode: CaptionMode::Emphasis,
            text: "#111111"@,
            emphasis: Some("#0059ff"@),
            bg: Some("rgba(255,255,255,0.78)"@),
            deco: Some(Deco::Underline),
            deco_color: Some("#0059ff"@),
            font: None,
            italic: false,
        },
        CaptionPresetView {
            id: "em-box-purple"@,
            mode: CaptionMode::Emphasis,
            text: "#ffffff"@,
            emphasis: None,
            bg: Some("rgba(118,40,187,0.85)"@),
            deco: Some(Deco::Highlight),
            deco_color: Some("rgba(0,0,0,0.4)"@),
            font: None,
            italic: false,
        },
        CaptionPresetView {
            id: "em-box-blue"@,
            mode: CaptionMode::Emphasis,
            text: "#ffffff"@,
            emphasis: None,
            bg: Some("rgba(0,89,255,0.85)"@),
            deco: Some(Deco::Highlight),
            deco_color: Some("#000000"@),
            font: None,
            italic: false,
        },
        CaptionPresetView {
            id: "em-pink"@,
            mode: CaptionMode::Emphasis,
            text: "#fccfcf"@,
            emphasis: Some("#ffffff"@),
            bg: Some("rgba(236,137,134,0.85)"@),
            deco: None,
            deco_color: None,
            font: None,
            italic: false,
        },
        CaptionPresetView {
            id: "em-gold-serif"@,
            mode: CaptionMode::Emphasis,
            text: "#b89d4c"@,
            emphasis: Some("#7f6000"@),
            bg: Some("rgba(248,233,192,0.85)"@),
            deco: None,
            deco_color: None,
            font: Some(PresetFont::Serif),
            italic: false,
        },
        CaptionPresetView {
            id: "ln-clean"@,
            mode: CaptionMode::Line,
            text: "#ffffff"@,
            emphasis: None,
            bg: None,
            deco: None,
            deco_color: None,
            font: None,
            italic: false,
        },
        CaptionPresetView {
            id: "ln-black"@,
            mode: CaptionMode::Line,
            text: "#ffffff"@,
            emphasis: None,
            bg: Some("rgba(0,0,0,0.85)"@),
            deco: None,
            deco_color: None,
            font: None,
            italic: false,
        },
        CaptionPresetView {
            id: "ln-navy"@,
            mode: CaptionMode::Line,
            text: "#ffffff"@,
            emphasis: None,
            bg: Some("rgba(70,80,109,0.85)"@),
            deco: None,
            deco_color: None,
            font: Some(PresetFont::Serif),
            italic: false,
        },
        CaptionPresetView {
            id: "ln-white"@,
            mode: CaptionMode::Line,
            text: "#3901ee"@,
            emphasis: None,
            bg: Some("rgba(255,255,255,0.85)"@),
            deco: None,
            deco_color: None,
            font: None,
            italic: true,
        },
        CaptionPresetView {
            id: "ln-orange"@,
            mode: CaptionMode::Line,
            text: "#ffffff"@,
            emphasis: None,
            bg: Some("rgba(255,140,90,0.85)"@),
            deco: None,
            deco_color: None,
            font: None,
            italic: false,
        },
        CaptionPresetView {
            id: "ln-yellow"@,
            mode: CaptionMode::Line,
            text: "#000000"@,
            emphasis: None,
            bg: Some("rgba(255,227,79,0.85)"@),
            deco: None,
            deco_color: None,
            font: None,
            italic: false,
        },
        CaptionPresetView {
            id: "ln-red"@,
            mode: CaptionMode::Line,
            text: "#ffffff"@,
            emphasis: None,
            bg: Some("rgba(255,0,0,0.85)"@),
            deco: None,
            deco_color: None,
            font: Some(PresetFont::Mono),
            italic: false,
        },
        CaptionPresetView {
            id: "ln-mint"@,
            mode: CaptionMode::Line,
            text: "#63ffc7"@,
            emphasis: None,
            bg: None,
            deco: None,
            deco_color: None,
            font: None,
            italic: false,
        },
    ]
}

/// The preset table (see `preset_table`).
pub fn caption_presets() -> (r: Vec<CaptionPreset>)
    ensures
        presets_view(r@) == preset_table(),
{
    let v = vec![
        CaptionPreset {
            id: "em-yellow",
            mode: CaptionMode::Emphasis,
            text: "#ffffff",
            emphasis: Some("#ffe34f"),
            bg: None,
            deco: None,
            deco_color: None,
            font: None,
            italic: false,
        },
        CaptionPreset {
            id: "em-green",
            mode: CaptionMode::Emphasis,
            text: "#ffffff",
            emphasis: Some("#5affb6"),
            bg: None,
            deco: None,
            deco_color: None,
            font: None,
            italic: false,
        },
        CaptionPreset {
            id: "em-purple-black",
            mode: CaptionMode::Emphasis,
            text: "#ffffff",
            emphasis: Some("#cf96ff"),
            bg: Some("rgba(0,0,0,0.72)"),
            deco: None,
            deco_color: None,
            font: None,
            italic: false,
        },
        CaptionPreset {
            id: "em-serif-black",
            mode: CaptionMode::Emphasis,
            text: "#ffffff",
            emphasis: Some("#63ffc7"),
            bg: Some("rgba(0,0,0,0.72)"),
            deco: None,
            deco_color: None,
            font: Some(PresetFont::Serif),
            italic: false,
        },
        CaptionPreset {
            id: "em-underline",
            mode: CaptionMode::Emphasis,
            text: "#ffffff",
            emphasis: None,
            bg: Some("rgba(0,0,0,0.8)"),
            deco: Some(Deco::Underline),
            deco_color: Some("#ffffff"),
            font: None,
            italic: false,
        },
        CaptionPreset {
            id: "em-blue-line",
            mode: CaptionMode::Emphasis,
            text: "#111111",
            emphasis: Some("#0059ff"),
            bg: Some("rgba(255,255,255,0.78)"),
            deco: Some(Deco::Underline),
            deco_color: Some("#0059ff"),
            font: None,
            italic: false,
        },
        CaptionPreset {
            id: "em-box-purple",
            mode: CaptionMode::Emphasis,
            text: "#ffffff",
            emphasis: None,
            bg: Some("rgba(118,40,187,0.85)"),
            deco: Some(Deco::Highlight),
            deco_color: Some("rgba(0,0,0,0.4)"),
            font: None,
            italic: false,
        },
        CaptionPreset {
            id: "em-box-blue",
            mode: CaptionMode::Emphasis,
            text: "#ffffff",
            emphasis: None,
            bg: Some("rgba(0,89,255,0.85)"),
            deco: Some(Deco::Highlight),
            deco_color: Some("#000000"),
            font: None,
            italic: false,
        },
        CaptionPreset {
            id: "em-pink",
            mode: CaptionMode::Emphasis,
            text: "#fccfcf",
            emphasis: Some("#ffffff"),
            bg: Some("rgba(236,137,134,0.85)"),
            deco: None,
            deco_color: None,
            font: None,
            italic: false,
        },
        CaptionPreset {
            id: "em-gold-serif",
            mode: CaptionMode::Emphasis,
            text: "#b89d4c",
            emphasis: Some("#7f6000"),
            bg: Some("rgba(248,233,192,0.85)"),
            deco: None,
            deco_color: None,
            font: Some(PresetFont::Serif),
            italic: false,
        },
        CaptionPreset {
            id: "ln-clean",
            mode: CaptionMode::Line,
            text: "#ffffff",
            emphasis: None,
            bg: None,
            deco: None,
            deco_color: None,
            font: None,
            italic: false,
        },
        CaptionPreset {
            id: "ln-black",
            mode: CaptionMode::Line,
            text: "#ffffff",
            emphasis: None,
            bg: Some("rgba(0,0,0,0.85)"),
            deco: None,
            deco_color: None,
            font: None,
            italic: false,
        },
        CaptionPreset {
            id: "ln-navy",
            mode: CaptionMode::Line,
            text: "#ffffff",
            emphasis: None,
            bg: Some("rgba(70,80,109,0.85)"),
            deco: None,
            deco_color: None,
            font: Some(PresetFont::Serif),
            italic: false,
        },
        CaptionPreset {
            id: "ln-white",
            mode: CaptionMode::Line,
            text: "#3901ee",
            emphasis: None,
            bg: Some("rgba(255,255,255,0.85)"),
            deco: None,
            deco_color: None,
            font: None,
            italic: true,
        },
        CaptionPreset {
            id: "ln-orange",
            mode: CaptionMode::Line,
            text: "#ffffff",
            emphasis: None,
            bg: Some("rgba(255,140,90,0.85)"),
            deco: None,
            deco_color: None,
            font: None,
            italic: false,
        },
        CaptionPreset {
            id: "ln-yellow",
            mode: CaptionMode::Line,
            text: "#000000",
            emphasis: None,
            bg: Some("rgba(255,227,79,0.85)"),
            deco: None,
            deco_color: None,
            font: None,
            italic: false,
        },
        CaptionPreset {
            id: "ln-red",
            mode: CaptionMode::Line,
            text: "#ffffff",
            emphasis: None,
            bg: Some("rgba(255,0,0,0.85)"),
            deco: None,
            deco_color: None,
            font: Some(PresetFont::Mono),
            italic: false,
        },
        CaptionPreset {
            id: "ln-mint",
            mode: CaptionMode::Line,
            text: "#63ffc7",
            emphasis: None,
            bg: None,
            deco: None,
            deco_color: None,
            font: None,
            italic: false,
        },
    ];
    assert(presets_view(v@) =~= preset_table());
    v
}

/// Index of the first preset at or after `k` with id `id`, or -1.
pub open spec fn preset_index(t: Seq<CaptionPresetView>, id: Seq<char>, k: int) -> int
    decreases t.len() - k,
{
    if k < 0 || k >= t.len() {
        -1
    } else if t[k].id == id {
        k
    } else {
        preset_index(t, id, k + 1)
    }
}

/// Looks a preset up by id; unknown ids give none (callers keep the plain
/// style).
pub fn caption_preset(id: &str) -> (r: Option<CaptionPreset>)
    ensures
        ({
            let k = preset_index(preset_table(), id@, 0);
            match r {
                None => k == -1,
                Some(p) => k != -1 && p@ == preset_table()[k],
            }
        }),
{
    let table = caption_presets();
    let mut k: usize = 0;
    while k < table.len()
        invariant
            presets_view(table@) == preset_table(),
            0 <= k <= table@.len(),
            preset_index(preset_table(), id@, k as int) == preset_index(preset_table(), id@, 0),
        decreases table@.len() - k,
    {
        assert(preset_table()[k as int] == table@[k as int]@);
        if str_eq(table[k].id, id) {
            return Some(table[k]);
        }
        k = k + 1;
    }
    None
}

/// The ASS font name of a preset font: fonts every macOS install ships
/// (the preview's Songti SC for serif, Menlo for mono).
pub fn preset_fontname(preset: &CaptionPreset) -> (r: Option<&'static str>)
    ensures
        opt_static_view(r) == match preset.font {
            Some(PresetFont::Serif) => Some("Songti SC"@),
            Some(PresetFont::Mono) => Some("Menlo"@),
            None => None::<Seq<char>>,
        },
{
    match preset.font {
        Some(PresetFont::Serif) => Some("Songti SC"),
        Some(PresetFont::Mono) => Some("Menlo"),
        None => None,
    }
}

/// Characters after which a Latin word may continue with a space.
pub open spec fn join_tail(c: char) -> bool {
    let u = c as u32;
    is_ascii_alnum(c) || u == 0x2e || u == 0x2c || u == 0x21 || u == 0x3f || u == 0x3b || u == 0x3a
        || u == 0x27 || u == 0x22 || u == 0x29 || u == 0x5d || u == 0x25
}

/// Characters before which a Latin word may follow a space.
pub open spec fn join_head(c: char) -> bool {
    let u = c as u32;
    is_ascii_alnum(c) || u == 0x28 || u == 0x27 || u == 0x22 || u == 0x5b || u == 0x24
}

/// Two adjacent words get a space between them exactly when both meet at
/// Latin text (adjacent CJK words need none).
pub open spec fn latin_join_spec(a: Seq<char>, b: Seq<char>) -> bool {
    a.len() > 0 && join_tail(a.last()) && b.len() > 0 && join_head(b[0])
}

/// Whether words `a` and `b` are separated by a space.
pub fn latin_join(a: &str, b: &str) -> (r: bool)
    ensures
        r == latin_join_spec(a@, b@),
{
    let n = a.unicode_len();
    let m = b.unicode_len();
    if n == 0 || m == 0 {
        return false;
    }
    let t = a.get_char(n - 1);
    let h = b.get_char(0);
    let tu = t as u32;
    let hu = h as u32;
    let tail = ascii_alnum(t) || tu == 0x2e || tu == 0x2c || tu == 0x21 || tu == 0x3f || tu == 0x3b
        || tu == 0x3a || tu == 0x27 || tu == 0x22 || tu == 0x29 || tu == 0x5d || tu == 0x25;
    let head = ascii_alnum(h) || hu == 0x28 || hu == 0x27 || hu == 0x22 || hu == 0x5b || hu == 0x24;
    tail && head
}

/// Word texts joined back into a line, with spaces at Latin boundaries
/// only.
pub open spec fn join_words_spec(ws: Seq<WordView>) -> Seq<char>
    decreases ws.len(),
{
    if ws.len() == 0 {
        Seq::empty()
    } else if ws.len() == 1 {
        ws[0].text
    } else {
        join_words_spec(ws.drop_last()) + if latin_join_spec(ws[ws.len() - 2].text, ws.last().text) {
            seq![' ']
        } else {
            Seq::empty()
        } + ws.last().text
    }
}

/// Joins word texts back into a sentence (spaces at Latin boundaries only).
pub fn join_words(words: &[Word]) -> (r: String)
    ensures
        r@ == join_words_spec(Seq::new(words@.len(), |i: int| words@[i]@)),
{
    let ghost ws = Seq::new(words@.len(), |i: int| words@[i]@);
    let mut out = String::new();
    let mut i: usize = 0;
    while i < words.len()
        invariant
            ws == Seq::new(words@.len(), |i: int| words@[i]@),
            0 <= i <= ws.len(),
            out@ == join_words_spec(ws.subrange(0, i as int)),
        decreases ws.len() - i,
    {
        let ghost pre = ws.subrange(0, i as int);
        assert(ws.subrange(0, i + 1).drop_last() =~= pre);
        if i > 0 {
            assert(ws.subrange(0, i + 1)[i - 1] == words@[i - 1]@);
            if latin_join(words[i - 1].text.as_str(), words[i].text.as_str()) {
                push_char(&mut out, ' ');
            }
        }
        push_str(&mut out, words[i].text.as_str());
        i = i + 1;
        assert(out@ =~= join_words_spec(ws.subrange(0, i as int)));
    }
    assert(ws.subrange(0, i as int) =~= ws);
    out
}

/// `s` without its white space.
pub open spec fn remove_ws(s: Seq<char>) -> Seq<char>
    decreases s.len(),
{
    if s.len() == 0 {
        Seq::empty()
    } else {
        remove_ws(s.drop_last()) + if is_ws(s.last()) {
            Seq::empty()
        } else {
            seq![s.last()]
        }
    }
}

/// The characters of `s` that are not white space.
pub fn without_whitespace(s: &str) -> (r: String)
    ensures
        r@ == remove_ws(s@),
{
    let n = s.unicode_len();
    let mut out = String::new();
    let mut i: usize = 0;
    while i < n
        invariant
            n == s@.len(),
            0 <= i <= n,
            out@ == remove_ws(s@.subrange(0, i as int)),
        decreases n - i,
    {
        let c = s.get_char(i);
        assert(s@.subrange(0, i + 1).drop_last() =~= s@.subrange(0, i as int));
        if !is_whitespace(c) {
            push_char(&mut out, c);
        }
        i = i + 1;
        assert(out@ =~= remove_ws(s@.subrange(0, i as int)));
    }
    assert(s@.subrange(0, i as int) =~= s@);
    out
}

/// The CJK scripts a caption line is segmented per character in: CJK
/// ideographs, kana and Hangul syllables.
pub open spec fn cjk_char(c: char) -> bool {
    let u = c as u32;
    (0x4e00 <= u <= 0x9fff) || (0x3040 <= u <= 0x30ff) || (0xac00 <= u <= 0xd7af)
}

pub fn is_cjk(ch: char) -> (r: bool)
    ensures
        r == cjk_char(ch),
{
    let u = ch as u32;
    (0x4e00 <= u && u <= 0x9fff) || (0x3040 <= u && u <= 0x30ff) || (0xac00 <= u && u <= 0xd7af)
}

/// Whether `char::is_alphanumeric` holds of `c` (Unicode Alphabetic or
/// Numeric).
pub uninterp spec fn unicode_alphanumeric(c: char) -> bool;

/// `char::is_alphanumeric`.
#[verifier::external_body]
pub fn alphanumeric(c: char) -> (r: bool)
    ensures
        r == unicode_alphanumeric(c),
{
    c.is_alphanumeric()
}

/// Tokens made so far, and the Latin run being built.
pub struct TokenState {
    pub tokens: Seq<Seq<char>>,
    pub latin: Seq<char>,
}

pub open spec fn flush_latin(st: TokenState) -> TokenState {
    if st.latin.len() > 0 {
        TokenState { tokens: st.tokens.push(st.latin), latin: Seq::empty() }
    } else {
        st
    }
}

/// One character of segmentation: white space ends a Latin run; a CJK
/// character is a token of its own; letters and digits, and anything right
/// after them, extend the Latin run; other characters glue onto the token
/// before them, or start a run when there is none.
pub open spec fn token_step(st: TokenState, ch: char) -> TokenState {
    if is_ws(ch) {
        flush_latin(st)
    } else if cjk_char(ch) {
        TokenState { tokens: flush_latin(st).tokens.push(seq![ch]), latin: Seq::empty() }
    } else if unicode_alphanumeric(ch) || st.latin.len() > 0 {
        TokenState { tokens: st.tokens, latin: st.latin.push(ch) }
    } else if st.tokens.len() > 0 {
        TokenState {
            tokens: st.tokens.update(st.tokens.len() - 1, st.tokens.last().push(ch)),
            latin: st.latin,
        }
    } else {
        TokenState { tokens: st.tokens, latin: st.latin.push(ch) }
    }
}

pub open spec fn token_fold(cs: Seq<char>) -> TokenState
    decreases cs.len(),
{
    if cs.len() == 0 {
        TokenState { tokens: Seq::empty(), latin: Seq::empty() }
    } else {
        token_step(token_fold(cs.drop_last()), cs.last())
    }
}

/// The tokens of a caption text, as `approx_tokens` segments it.
pub open spec fn approx_tokens_spec(text: Seq<char>) -> Seq<Seq<char>> {
    flush_latin(token_fold(trimmed(text))).tokens
}

pub open spec fn strs_view(v: Seq<String>) -> Seq<Seq<char>> {
    Seq::new(v.len(), |i: int| v[i]@)
}

/// Rough word segmentation for text without word timing: CJK splits per
/// character, Latin on white space, and punctuation glues onto the token
/// before it.
pub fn approx_tokens(text: &str) -> (r: Vec<String>)
    ensures
        strs_view(r@) == approx_tokens_spec(text@),
{
    let t = trim(text);
    let n = t.unicode_len();
    let mut tokens: Vec<String> = Vec::new();
    let mut latin = String::new();
    let mut i: usize = 0;
    while i < n
        invariant
            n == t@.len(),
            t@ == trimmed(text@),
            0 <= i <= n,
            strs_view(tokens@) == token_fold(t@.subrange(0, i as int)).tokens,
            latin@ == token_fold(t@.subrange(0, i as int)).latin,
        decreases n - i,
    {
        let ch = t.get_char(i);
        let ghost st = token_fold(t@.subrange(0, i as int));
        assert(t@.subrange(0, i + 1).drop_last() =~= t@.subrange(0, i as int));
        assert(t@.subrange(0, i + 1).last() == ch);
        let ghost before = tokens@;
        if is_whitespace(ch) {
            if latin.unicode_len() > 0 {
                let mut run = String::new();
                std::mem::swap(&mut run, &mut latin);
                tokens.push(run);
                assert(strs_view(tokens@) =~= strs_view(before).push(run@));
            }
        } else if is_cjk(ch) {
            if latin.unicode_len() > 0 {
                let mut run = String::new();
                std::mem::swap(&mut run, &mut latin);
                tokens.push(run);
                assert(strs_view(tokens@) =~= strs_view(before).push(run@));
            }
            let ghost mid = tokens@;
            let mut one = String::new();
            push_char(&mut one, ch);
            tokens.push(one);
            assert(strs_view(tokens@) =~= strs_view(mid).push(one@));
            assert(one@ =~= seq![ch]);
        } else if alphanumeric(ch) || latin.unicode_len() > 0 {
            push_char(&mut latin, ch);
        } else if tokens.len() > 0 {
            let mut last = tokens.pop().unwrap();
            push_char(&mut last, ch);
            tokens.push(last);
            assert(strs_view(tokens@) =~= strs_view(before).update(
                before.len() - 1,
                strs_view(before).last().push(ch),
            ));
        } else {
            push_char(&mut latin, ch);
        }
        i = i + 1;
    }
    assert(t@.subrange(0, i as int) =~= t@);
    if latin.unicode_len() > 0 {
        let ghost before = tokens@;
        tokens.push(latin);
        assert(strs_view(tokens@) =~= strs_view(before).push(latin@));
    }
    tokens
}

/// All tokens, one after another.
pub open spec fn concat_all(ts: Seq<Seq<char>>) -> Seq<char>
    decreases ts.len(),
{
    if ts.len() == 0 {
        Seq::empty()
    } else {
        concat_all(ts.drop_last()) + ts.last()
    }
}

pub proof fn lemma_concat_push(ts: Seq<Seq<char>>, x: Seq<char>)
    ensures
        concat_all(ts.push(x)) == concat_all(ts) + x,
{
    assert(ts.push(x).drop_last() =~= ts);
}

pub proof fn lemma_concat_extend_last(ts: Seq<Seq<char>>, ch: char)
    requires
        ts.len() > 0,
    ensures
        concat_all(ts.update(ts.len() - 1, ts.last().push(ch))) == concat_all(ts).push(ch),
{
    let u = ts.update(ts.len() - 1, ts.last().push(ch));
    assert(u.drop_last() =~= ts.drop_last());
    assert(concat_all(u) =~= concat_all(ts).push(ch));
}

pub proof fn lemma_remove_ws_push(s: Seq<char>, c: char)
    ensures
        remove_ws(s.push(c)) == remove_ws(s) + if is_ws(c) {
            Seq::<char>::empty()
        } else {
            seq![c]
        },
{
    assert(s.push(c).drop_last() =~= s);
}

/// Segmentation keeps every non-white-space character in order, and makes
/// no empty token.
pub proof fn lemma_token_fold(cs: Seq<char>)
    ensures
        concat_all(token_fold(cs).tokens) + token_fold(cs).latin == remove_ws(cs),
        forall|k: int|
            0 <= k < token_fold(cs).tokens.len() ==> #[trigger] token_fold(cs).tokens[k].len() > 0,
    decreases cs.len(),
{
    if cs.len() > 0 {
        let pre = cs.drop_last();
        let ch = cs.last();
        lemma_token_fold(pre);
        assert(pre.push(ch) =~= cs);
        lemma_remove_ws_push(pre, ch);
        let st = token_fold(pre);
        let f = flush_latin(st);
        if st.latin.len() > 0 {
            lemma_concat_push(st.tokens, st.latin);
        }
        assert(concat_all(f.tokens) + f.latin == concat_all(st.tokens) + st.latin);
        if is_ws(ch) {
        } else if cjk_char(ch) {
            lemma_concat_push(f.tokens, seq![ch]);
            assert(concat_all(f.tokens) + f.latin =~= concat_all(f.tokens));
        } else if unicode_alphanumeric(ch) || st.latin.len() > 0 {
            assert(concat_all(st.tokens) + st.latin.push(ch) =~= (concat_all(st.tokens)
                + st.latin).push(ch));
        } else if st.tokens.len() > 0 {
            lemma_concat_extend_last(st.tokens, ch);
            assert(st.latin.len() == 0);
            assert(concat_all(st.tokens).push(ch) + st.latin =~= (concat_all(st.tokens)
                + st.latin).push(ch));
        } else {
            assert(concat_all(st.tokens) + st.latin.push(ch) =~= (concat_all(st.tokens)
                + st.latin).push(ch));
        }
    }
}

/// The tokens of a caption text rebuild the trimmed text without its white
/// space, and none is empty.
pub proof fn law_tokens_rebuild_text(text: Seq<char>)
    ensures
        concat_all(approx_tokens_spec(text)) == remove_ws(trimmed(text)),
        forall|k: int|
            0 <= k < approx_tokens_spec(text).len() ==> #[trigger] approx_tokens_spec(text)[k].len() > 0,
{
    let st = token_fold(trimmed(text));
    lemma_token_fold(trimmed(text));
    if st.latin.len() > 0 {
        lemma_concat_push(st.tokens, st.latin);
    } else {
        assert(concat_all(st.tokens) + st.latin =~= concat_all(st.tokens));
    }
}

/// One cue under a caption preset: the main line and an optional
/// translation sub-line, each its own subtitle event, and how far the main
/// event is raised above the sub-line block.
#[derive(Debug)]
pub struct PresetCaption {
    pub main: String,
    pub sub: Option<String>,
    pub main_margin_lift: u32,
}


/// `u8::from_str_radix` in base 16 of a two-character text: two hex
/// digits, or `+` and one hex digit.
pub open spec fn pair_byte(a: char, b: char) -> Option<nat> {
    if a == '+' && is_ascii_hex(b) {
        Some(hex_value(b))
    } else if is_ascii_hex(a) && is_ascii_hex(b) {
        Some(hex_value(a) * 16 + hex_value(b))
    } else {
        None
    }
}

pub open spec fn all_ascii(s: Seq<char>) -> bool {
    forall|i: int| 0 <= i < s.len() ==> (#[trigger] s[i] as u32) < 128
}

/// The red, green, blue and alpha bytes of the digits of a CSS `#rgb`,
/// `#rrggbb` or `#rrggbbaa` colour (the text after `#`); a short digit is
/// doubled, and a missing alpha is opaque.
pub open spec fn css_hex_channels_spec(h: Seq<char>) -> Option<(nat, nat, nat, nat)> {
    if !all_ascii(h) {
        None
    } else if h.len() == 3 {
        if is_ascii_hex(h[0]) && is_ascii_hex(h[1]) && is_ascii_hex(h[2]) {
            Some((17 * hex_value(h[0]), 17 * hex_value(h[1]), 17 * hex_value(h[2]), 255))
        } else {
            None
        }
    } else if h.len() == 6 || h.len() == 8 {
        match (pair_byte(h[0], h[1]), pair_byte(h[2], h[3]), pair_byte(h[4], h[5])) {
            (Some(r), Some(g), Some(b)) => if h.len() == 6 {
                Some((r, g, b, 255))
            } else {
                match pair_byte(h[6], h[7]) {
                    Some(a) => Some((r, g, b, a)),
                    None => None,
                }
            },
            _ => None,
        }
    } else {
        None
    }
}

fn pair_byte_of(a: char, b: char) -> (r: Option<u8>)
    ensures
        match r {
            Some(v) => pair_byte(a, b) == Some(v as nat),
            None => pair_byte(a, b) is None,
        },
{
    if a == '+' && crate::text::is_hex_char(b) {
        Some(crate::text::hex_digit_value(b))
    } else if crate::text::is_hex_char(a) && crate::text::is_hex_char(b) {
        Some(crate::text::hex_digit_value(a) * 16 + crate::text::hex_digit_value(b))
    } else {
        None
    }
}

/// The channels of the digits of a CSS `#` colour (the text after `#`):
/// `#rgb`, `#rrggbb` or `#rrggbbaa`, as `(red, green, blue, alpha)`, and
/// `None` for anything else, non-ASCII text included.
pub fn css_hex_channels(hex: &str) -> (r: Option<(u8, u8, u8, u8)>)
    ensures
        match r {
            Some((red, green, blue, alpha)) => css_hex_channels_spec(hex@) == Some(
                (red as nat, green as nat, blue as nat, alpha as nat),
            ),
            None => css_hex_channels_spec(hex@) is None,
        },
{
    let n = hex.unicode_len();
    let mut i: usize = 0;
    while i < n
        invariant
            n == hex@.len(),
            0 <= i <= n,
            forall|k: int| 0 <= k < i ==> (#[trigger] hex@[k] as u32) < 128,
        decreases n - i,
    {
        if (hex.get_char(i) as u32) >= 128 {
            return None;
        }
        i = i + 1;
    }
    let h = crate::text::chars_of(hex);
    if n == 3 {
        if crate::text::is_hex_char(h[0]) && crate::text::is_hex_char(h[1])
            && crate::text::is_hex_char(h[2]) {
            let r = crate::text::hex_digit_value(h[0]) * 17;
            let g = crate::text::hex_digit_value(h[1]) * 17;
            let b = crate::text::hex_digit_value(h[2]) * 17;
            Some((r, g, b, 255))
        } else {
            None
        }
    } else if n == 6 || n == 8 {
        let r = match pair_byte_of(h[0], h[1]) {
            Some(v) => v,
            None => return None,
        };
        let g = match pair_byte_of(h[2], h[3]) {
            Some(v) => v,
            None => return None,
        };
        let b = match pair_byte_of(h[4], h[5]) {
            Some(v) => v,
            None => return None,
        };
        if n == 6 {
            Some((r, g, b, 255))
        } else {
            match pair_byte_of(h[6], h[7]) {
                Some(a) => Some((r, g, b, a)),
                None => None,
            }
        }
    } else {
        None
    }
}

/// The ASS colour `&HAABBGGRR` of a colour given by its channels; ASS alpha
/// is the inverse of opacity (0 opaque, 255 transparent).
pub fn ass_bgr_color(red: u8, green: u8, blue: u8, alpha: u8) -> (r: String)
    ensures
        r@ == "&H"@ + crate::text::hex2((255 - alpha) as nat) + crate::text::hex2(blue as nat)
            + crate::text::hex2(green as nat) + crate::text::hex2(red as nat),
{
    let mut s = String::new();
    push_str(&mut s, "&H");
    crate::text::push_hex2(&mut s, 255 - alpha);
    crate::text::push_hex2(&mut s, blue);
    crate::text::push_hex2(&mut s, green);
    crate::text::push_hex2(&mut s, red);
    s
}

} // verus!
