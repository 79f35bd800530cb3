//! Video export settings: container/codec compatibility and the canvas size
//! that a quality tier and an aspect ratio resolve to.

use vstd::prelude::*;

use crate::doc::{
    clone_opt_string, copy_media, copy_tracks, copy_words, opt_str_view, paragraphs_view,
    same_media, same_meta_but_language, sentences_view, strings_view, tracks_view, Doc,
    Meta, Paragraph, ParagraphView, Sentence, SentenceView, TranslationGroupView,
};
use crate::error::{schema_error, AppError, AppResult};
use crate::subtitle::{contains_id, last_track, lookup_entry, tracks_map};
use crate::text::{
    blank, decimal, is_blank, join_with, lemma_join_with_push, owned, push_decimal, push_str,
    str_eq, trim, trimmed,
};

verus! {

#[derive(Debug, Clone, Copy, PartialEq, Eq, Structural)]
pub enum ExportContainer {
    Mp4,
    Mov,
}

#[derive(Debug, Clone, Copy, PartialEq, Eq, Structural)]
pub enum ExportVideoCodec {
    H264,
    Hevc,
    Prores,
}

#[derive(Debug, Clone, Copy, PartialEq, Eq, Structural)]
pub enum ExportResolution {
    Source,
    Hd720,
    FullHd1080,
    Uhd4k,
}

#[derive(Debug, Clone, Copy, PartialEq, Eq, Structural)]
pub enum ExportAspectRatio {
    Source,
    Landscape16x9,
    Portrait9x16,
    Square1x1,
    Portrait4x5,
}

#[derive(Debug, Clone, Copy, PartialEq, Eq, Structural)]
pub enum ExportCanvasFit {
    Contain,
    Cover,
}

#[derive(Debug, Clone, Copy, PartialEq, Eq, Structural)]
pub enum ExportSubtitleMode {
    Burn,
    Soft,
    /// No captions in the export (stored as `none`).
    Off,
}

#[derive(Debug, Clone, Copy, PartialEq, Eq, Structural)]
pub enum ExportAudioCodec {
    Aac,
    Pcm,
}

#[derive(Debug, Clone, Copy, PartialEq, Eq, Structural)]
pub enum ExportEncodingSpeed {
    Fast,
    Quality,
}

impl Default for ExportAspectRatio {
    fn default() -> (r: Self)
        ensures
            r == ExportAspectRatio::Source,
    {
        ExportAspectRatio::Source
    }
}

impl Default for ExportCanvasFit {
    fn default() -> (r: Self)
        ensures
            r == ExportCanvasFit::Contain,
    {
        ExportCanvasFit::Contain
    }
}

#[derive(Debug)]
pub struct VideoExportSettings {
    pub container: ExportContainer,
    pub video_codec: ExportVideoCodec,
    pub resolution: ExportResolution,
    pub aspect_ratio: ExportAspectRatio,
    pub canvas_fit: ExportCanvasFit,
    pub subtitle_mode: ExportSubtitleMode,
    pub subtitle_language: Option<String>,
    pub bilingual_subtitles: bool,
    pub audio_codec: ExportAudioCodec,
    pub encoding_speed: ExportEncodingSpeed,
}

impl Clone for VideoExportSettings {
    fn clone(&self) -> (r: Self)
        ensures
            r.container == self.container,
            r.video_codec == self.video_codec,
            r.resolution == self.resolution,
            r.aspect_ratio == self.aspect_ratio,
            r.canvas_fit == self.canvas_fit,
            r.subtitle_mode == self.subtitle_mode,
            opt_str_view(r.subtitle_language) == opt_str_view(self.subtitle_language),
            r.bilingual_subtitles == self.bilingual_subtitles,
            r.audio_codec == self.audio_codec,
            r.encoding_speed == self.encoding_speed,
    {
        VideoExportSettings {
            container: self.container,
            video_codec: self.video_codec,
            resolution: self.resolution,
            aspect_ratio: self.aspect_ratio,
            canvas_fit: self.canvas_fit,
            subtitle_mode: self.subtitle_mode,
            subtitle_language: clone_opt_string(&self.subtitle_language),
            bilingual_subtitles: self.bilingual_subtitles,
            audio_codec: self.audio_codec,
            encoding_speed: self.encoding_speed,
        }
    }
}

impl Default for VideoExportSettings {
    /// MP4 / H.264 / AAC at the source size with burnt-in captions: the
    /// export every project had before these settings existed.
    fn default() -> (r: Self)
        ensures
            r.container == ExportContainer::Mp4,
            r.video_codec == ExportVideoCodec::H264,
            r.resolution == ExportResolution::Source,
            r.aspect_ratio == ExportAspectRatio::Source,
            r.canvas_fit == ExportCanvasFit::Contain,
            r.subtitle_mode == ExportSubtitleMode::Burn,
            r.subtitle_language is None,
            !r.bilingual_subtitles,
            r.audio_codec == ExportAudioCodec::Aac,
            r.encoding_speed == ExportEncodingSpeed::Fast,
    {
        VideoExportSettings {
            container: ExportContainer::Mp4,
            video_codec: ExportVideoCodec::H264,
            resolution: ExportResolution::Source,
            aspect_ratio: ExportAspectRatio::Source,
            canvas_fit: ExportCanvasFit::Contain,
            subtitle_mode: ExportSubtitleMode::Burn,
            subtitle_language: None,
            bilingual_subtitles: false,
            audio_codec: ExportAudioCodec::Aac,
            encoding_speed: ExportEncodingSpeed::Fast,
        }
    }
}

/// The settings of a video export started without any: the defaults, with
/// the quality encoding speed exactly when `mode` is `quality`.
pub fn default_export_settings(mode: Option<&str>) -> (r: VideoExportSettings)
    ensures
        r.container == ExportContainer::Mp4,
        r.video_codec == ExportVideoCodec::H264,
        r.resolution == ExportResolution::Source,
        r.aspect_ratio == ExportAspectRatio::Source,
        r.canvas_fit == ExportCanvasFit::Contain,
        r.subtitle_mode == ExportSubtitleMode::Burn,
        r.subtitle_language is None,
        !r.bilingual_subtitles,
        r.audio_codec == ExportAudioCodec::Aac,
        r.encoding_speed == if mode matches Some(m) && m@ == "quality"@ {
            ExportEncodingSpeed::Quality
        } else {
            ExportEncodingSpeed::Fast
        },
{
    let mut settings = VideoExportSettings::default();
    let quality = match mode {
        Some(m) => crate::text::str_eq(m, "quality"),
        None => false,
    };
    if quality {
        settings.encoding_speed = ExportEncodingSpeed::Quality;
    }
    settings
}

/// A character allowed in a subtitle language tag.
pub open spec fn is_tag_char(c: char) -> bool {
    crate::text::is_ascii_alnum(c) || c == '-' || c == '_'
}

/// A short language tag: not blank, at most 64 characters, ASCII letters,
/// digits, `-` and `_` only.
pub open spec fn valid_language_tag(s: Seq<char>) -> bool {
    &&& !is_blank(s)
    &&& s.len() <= 64
    &&& forall|i: int| 0 <= i < s.len() ==> is_tag_char(#[trigger] s[i])
}

pub fn language_tag_ok(s: &str) -> (r: bool)
    ensures
        r == valid_language_tag(s@),
{
    if blank(s) {
        return false;
    }
    let n = s.unicode_len();
    if n > 64 {
        return false;
    }
    let mut i: usize = 0;
    while i < n
        invariant
            n == s@.len(),
            0 <= i <= n,
            forall|k: int| 0 <= k < i ==> is_tag_char(#[trigger] s@[k]),
        decreases n - i,
    {
        let c = s.get_char(i);
        if !(crate::text::ascii_alnum(c) || c == '-' || c == '_') {
            return false;
        }
        i = i + 1;
    }
    true
}

/// `round_even`: odd sizes grow by one pixel.
pub open spec fn round_even_spec(v: nat) -> nat {
    if v % 2 == 0 {
        v
    } else {
        v + 1
    }
}

/// `short * num / den` rounded to the nearest integer, halves up.
pub open spec fn scaled_edge(short: nat, num: nat, den: nat) -> nat {
    (2 * short * num + den) / (2 * den)
}

/// The even short edge of a canvas whose requested short edge is `short`.
pub open spec fn even_short(short: nat) -> nat {
    round_even_spec(if short < 2 {
        2
    } else {
        short
    })
}

/// The canvas of ratio `rw:rh` whose shorter edge is (at least) `short`.
pub open spec fn dims_for_ratio(rw: nat, rh: nat, short: nat) -> (nat, nat) {
    let s = even_short(short);
    if rw >= rh {
        (round_even_spec(scaled_edge(s, rw, rh)), s)
    } else {
        (s, round_even_spec(scaled_edge(s, rh, rw)))
    }
}

/// The sizes that `dims_for_ratio` computes fit in `u32`.
pub open spec fn dims_fit(rw: nat, rh: nat, short: nat) -> bool {
    let s = even_short(short);
    &&& rw > 0
    &&& rh > 0
    &&& short < u32::MAX
    &&& rw >= rh ==> scaled_edge(s, rw, rh) < u32::MAX
    &&& rw < rh ==> scaled_edge(s, rh, rw) < u32::MAX
}

fn round_even(value: u32) -> (r: u32)
    requires
        value < u32::MAX,
    ensures
        r == round_even_spec(value as nat),
{
    if value % 2 == 0 {
        value
    } else {
        value + 1
    }
}

fn scale_edge(short: u32, num: u32, den: u32) -> (r: u32)
    requires
        den > 0,
        scaled_edge(short as nat, num as nat, den as nat) < u32::MAX,
    ensures
        r == scaled_edge(short as nat, num as nat, den as nat),
{
    let s = short as u128;
    let n = num as u128;
    let d = den as u128;
    assert(s * n <= 0xffff_ffff_ffff_ffff_ffff_ffff) by (nonlinear_arith)
        requires
            s <= 0xffff_ffff,
            n <= 0xffff_ffff,
    ;
    let p = s * n;
    let q = (2 * p + d) / (2 * d);
    assert(2 * (short as nat) * (num as nat) == 2 * (p as nat)) by (nonlinear_arith)
        requires
            p == s * n,
            s == short,
            n == num,
    ;
    q as u32
}

/// Picture size for a `ratio_width:ratio_height` canvas whose shorter edge
/// is `short_edge`, both edges even.
fn dimensions_for_ratio(ratio_width: u32, ratio_height: u32, short_edge: u32) -> (r: (u32, u32))
    requires
        dims_fit(ratio_width as nat, ratio_height as nat, short_edge as nat),
    ensures
        (r.0 as nat, r.1 as nat) == dims_for_ratio(
            ratio_width as nat,
            ratio_height as nat,
            short_edge as nat,
        ),
{
    let base = if short_edge < 2 {
        2
    } else {
        short_edge
    };
    let short = round_even(base);
    if ratio_width >= ratio_height {
        let long = scale_edge(short, ratio_width, ratio_height);
        (round_even(long), short)
    } else {
        let long = scale_edge(short, ratio_height, ratio_width);
        (short, round_even(long))
    }
}

/// The quality tier's short edge (`None` for the source tier).
pub open spec fn tier_edge(r: ExportResolution) -> Option<nat> {
    match r {
        ExportResolution::Source => None,
        ExportResolution::Hd720 => Some(720),
        ExportResolution::FullHd1080 => Some(1080),
        ExportResolution::Uhd4k => Some(2160),
    }
}

/// The fixed ratio of an aspect setting (`None` for the source ratio).
pub open spec fn fixed_ratio(a: ExportAspectRatio) -> Option<(nat, nat)> {
    match a {
        ExportAspectRatio::Source => None,
        ExportAspectRatio::Landscape16x9 => Some((16, 9)),
        ExportAspectRatio::Portrait9x16 => Some((9, 16)),
        ExportAspectRatio::Square1x1 => Some((1, 1)),
        ExportAspectRatio::Portrait4x5 => Some((4, 5)),
    }
}

pub open spec fn min_nat(a: nat, b: nat) -> nat {
    if a <= b {
        a
    } else {
        b
    }
}

impl VideoExportSettings {
    /// The short edge the canvas is built around.
    pub open spec fn short_edge_spec(&self, source: Option<(u32, u32)>) -> nat {
        match tier_edge(self.resolution) {
            Some(e) => e,
            None => match source {
                Some((w, h)) => min_nat(w as nat, h as nat),
                None => 1080,
            },
        }
    }

    /// The ratio of the canvas.
    pub open spec fn ratio_spec(&self, source: Option<(u32, u32)>) -> (nat, nat) {
        match fixed_ratio(self.aspect_ratio) {
            Some(r) => r,
            None => match source {
                Some((w, h)) => if w > 0 && h > 0 {
                    (w as nat, h as nat)
                } else {
                    (16, 9)
                },
                None => (16, 9),
            },
        }
    }

    /// Whether the settings pass the source stream through unchanged.
    pub open spec fn passes_through(&self) -> bool {
        self.resolution == ExportResolution::Source && self.aspect_ratio
            == ExportAspectRatio::Source
    }

    /// The canvas computation for `source` stays within `u32`.
    pub open spec fn target_fits(&self, source: Option<(u32, u32)>) -> bool {
        self.passes_through() || dims_fit(
            self.ratio_spec(source).0,
            self.ratio_spec(source).1,
            self.short_edge_spec(source),
        )
    }

    pub open spec fn target_spec(&self, source: Option<(u32, u32)>) -> Option<(nat, nat)> {
        if self.passes_through() {
            None
        } else {
            Some(
                dims_for_ratio(
                    self.ratio_spec(source).0,
                    self.ratio_spec(source).1,
                    self.short_edge_spec(source),
                ),
            )
        }
    }

    /// The message `validate` refuses the settings with, if it does.
    pub open spec fn validation_error(&self) -> Option<Seq<char>> {
        if self.video_codec == ExportVideoCodec::Prores && self.container != ExportContainer::Mov {
            Some("ProRes export requires a MOV container"@)
        } else if self.audio_codec == ExportAudioCodec::Pcm && self.container != ExportContainer::Mov {
            Some("PCM audio export requires a MOV container"@)
        } else if self.subtitle_language matches Some(l) && !valid_language_tag(l@) {
            Some("subtitle translation language must be a short language tag"@)
        } else if self.bilingual_subtitles && self.subtitle_language is None {
            Some("bilingual subtitles require a translation language"@)
        } else {
            None
        }
    }

    /// Rejects codec/container combinations that cannot be written and
    /// malformed caption language selections.
    pub fn validate(&self) -> (r: AppResult<()>)
        ensures
            r is Ok <==> self.valid(),
            match r {
                Ok(_) => self.validation_error() is None,
                Err(e) => e matches AppError::Schema(m) && self.validation_error() == Some(m@),
            },
            self.video_codec == ExportVideoCodec::Prores && self.container != ExportContainer::Mov
                ==> crate::error::schema_error(r, "ProRes export requires a MOV container"@),
            !(self.video_codec == ExportVideoCodec::Prores && self.container
                != ExportContainer::Mov) && self.audio_codec == ExportAudioCodec::Pcm
                && self.container != ExportContainer::Mov ==> crate::error::schema_error(
                r,
                "PCM audio export requires a MOV container"@,
            ),
            self.codecs_fit_container() && (self.subtitle_language matches Some(l)
                && !valid_language_tag(l@)) ==> crate::error::schema_error(
                r,
                "subtitle translation language must be a short language tag"@,
            ),
            self.codecs_fit_container() && self.language_ok() && self.bilingual_subtitles
                && self.subtitle_language is None ==> crate::error::schema_error(
                r,
                "bilingual subtitles require a translation language"@,
            ),
    {
        if self.video_codec == ExportVideoCodec::Prores && self.container != ExportContainer::Mov {
            return Err(AppError::Schema("ProRes export requires a MOV container".to_string()));
        }
        if self.audio_codec == ExportAudioCodec::Pcm && self.container != ExportContainer::Mov {
            return Err(AppError::Schema("PCM audio export requires a MOV container".to_string()));
        }
        if let Some(language) = &self.subtitle_language {
            if !language_tag_ok(language.as_str()) {
                return Err(
                    AppError::Schema(
                        "subtitle translation language must be a short language tag".to_string(),
                    ),
                );
            }
        }
        if self.bilingual_subtitles && self.subtitle_language.is_none() {
            return Err(
                AppError::Schema("bilingual subtitles require a translation language".to_string()),
            );
        }
        Ok(())
    }

    pub open spec fn codecs_fit_container(&self) -> bool {
        &&& !(self.video_codec == ExportVideoCodec::Prores && self.container
            != ExportContainer::Mov)
        &&& !(self.audio_codec == ExportAudioCodec::Pcm && self.container != ExportContainer::Mov)
    }

    pub open spec fn language_ok(&self) -> bool {
        self.subtitle_language matches Some(l) ==> valid_language_tag(l@)
    }

    /// The settings can be exported.
    pub open spec fn valid(&self) -> bool {
        &&& self.codecs_fit_container()
        &&& self.language_ok()
        &&& self.bilingual_subtitles ==> self.subtitle_language is Some
    }

    /// File extension of the container.
    pub fn extension(&self) -> (r: &'static str)
        ensures
            self.container == ExportContainer::Mp4 ==> r@ == "mp4"@,
            self.container == ExportContainer::Mov ==> r@ == "mov"@,
    {
        match self.container {
            ExportContainer::Mp4 => "mp4",
            ExportContainer::Mov => "mov",
        }
    }

    /// Resolve the final picture size from the selected quality tier and
    /// canvas ratio. A quality tier is the shorter canvas edge, so 1080p is
    /// 1920×1080 for landscape and 1080×1920 for portrait. `None` means the
    /// source stream passes through without a canvas transform.
    pub fn target_dimensions(&self, source_dimensions: Option<(u32, u32)>) -> (r: Option<
        (u32, u32),
    >)
        requires
            self.target_fits(source_dimensions),
        ensures
            match (r, self.target_spec(source_dimensions)) {
                (None, None) => true,
                (Some((w, h)), Some((sw, sh))) => w as nat == sw && h as nat == sh,
                _ => false,
            },
    {
        if self.resolution == ExportResolution::Source && self.aspect_ratio
            == ExportAspectRatio::Source {
            return None;
        }
        let short_edge: u32 = match self.resolution {
            ExportResolution::Source => match source_dimensions {
                Some((width, height)) => if width <= height {
                    width
                } else {
                    height
                },
                None => 1080,
            },
            ExportResolution::Hd720 => 720,
            ExportResolution::FullHd1080 => 1080,
            ExportResolution::Uhd4k => 2160,
        };
        let (ratio_width, ratio_height): (u32, u32) = match self.aspect_ratio {
            ExportAspectRatio::Source => match source_dimensions {
                Some((width, height)) => if width > 0 && height > 0 {
                    (width, height)
                } else {
                    (16, 9)
                },
                None => (16, 9),
            },
            ExportAspectRatio::Landscape16x9 => (16, 9),
            ExportAspectRatio::Portrait9x16 => (9, 16),
            ExportAspectRatio::Square1x1 => (1, 1),
            ExportAspectRatio::Portrait4x5 => (4, 5),
        };
        Some(dimensions_for_ratio(ratio_width, ratio_height, short_edge))
    }

    /// `target_dimensions` without media metadata.
    pub fn dimensions(&self) -> (r: Option<(u32, u32)>)
        requires
            self.target_fits(None),
        ensures
            match (r, self.target_spec(None)) {
                (None, None) => true,
                (Some((w, h)), Some((sw, sh))) => w as nat == sw && h as nat == sh,
                _ => false,
            },
    {
        self.target_dimensions(None)
    }

    /// The fallback subtitle canvas when neither a transform nor source
    /// metadata exists: 1080 on the short edge, in the requested orientation.
    pub open spec fn fallback_canvas(&self) -> (nat, nat) {
        match self.aspect_ratio {
            ExportAspectRatio::Portrait9x16 => dims_for_ratio(9, 16, 1080),
            ExportAspectRatio::Square1x1 => dims_for_ratio(1, 1, 1080),
            ExportAspectRatio::Portrait4x5 => dims_for_ratio(4, 5, 1080),
            _ => dims_for_ratio(16, 9, 1080),
        }
    }

    /// ASS uses the coordinate system of the final picture: the target
    /// canvas, else the source size, else a 1080-quality canvas in the
    /// requested orientation.
    pub fn subtitle_canvas_dimensions(&self, source_dimensions: Option<(u32, u32)>) -> (r: (
        u32,
        u32,
    ))
        requires
            self.target_fits(source_dimensions),
        ensures
            match self.target_spec(source_dimensions) {
                Some((w, h)) => r.0 as nat == w && r.1 as nat == h,
                None => match source_dimensions {
                    Some(d) => r == d,
                    None => (r.0 as nat, r.1 as nat) == self.fallback_canvas(),
                },
            },
    {
        match self.target_dimensions(source_dimensions) {
            Some(d) => d,
            None => match source_dimensions {
                Some(d) => d,
                None => {
                    let (width, height): (u32, u32) = match self.aspect_ratio {
                        ExportAspectRatio::Portrait9x16 => (9, 16),
                        ExportAspectRatio::Square1x1 => (1, 1),
                        ExportAspectRatio::Portrait4x5 => (4, 5),
                        _ => (16, 9),
                    };
                    assert(dims_fit(width as nat, height as nat, 1080));
                    dimensions_for_ratio(width, height, 1080)
                },
            },
        }
    }

    /// The encoding speed under its historical mode name.
    pub fn legacy_mode(&self) -> (r: &'static str)
        ensures
            self.encoding_speed == ExportEncodingSpeed::Fast ==> r@ == "fast"@,
            self.encoding_speed == ExportEncodingSpeed::Quality ==> r@ == "quality"@,
    {
        match self.encoding_speed {
            ExportEncodingSpeed::Fast => "fast",
            ExportEncodingSpeed::Quality => "quality",
        }
    }
}

/// The translations of `lang`, when that track exists.
pub open spec fn caption_track(
    ts: Seq<crate::doc::TranslationTrack>,
    lang: Seq<char>,
) -> Option<Map<Seq<char>, TranslationGroupView>> {
    if tracks_map(ts).contains_key(lang) {
        Some(tracks_map(ts)[lang])
    } else {
        None
    }
}

/// A cue that is exported: it has timed words and is not hidden.
pub open spec fn cue_shown(s: SentenceView, hidden: Seq<Seq<char>>) -> bool {
    s.words.len() > 0 && !hidden.contains(s.id)
}

/// An exported cue without a usable translation.
pub open spec fn cue_missing(
    s: SentenceView,
    hidden: Seq<Seq<char>>,
    track: Option<Map<Seq<char>, TranslationGroupView>>,
) -> bool {
    cue_shown(s, hidden) && match track {
        None => true,
        Some(m) => !m.contains_key(s.id) || is_blank(m[s.id].text),
    }
}

/// An exported cue whose translation was made from another source text.
pub open spec fn cue_stale(
    s: SentenceView,
    hidden: Seq<Seq<char>>,
    track: Option<Map<Seq<char>, TranslationGroupView>>,
) -> bool {
    &&& cue_shown(s, hidden)
    &&& !cue_missing(s, hidden, track)
    &&& track.unwrap()[s.id].source_text matches Some(src) && trimmed(src) != trimmed(s.text)
}

/// The exported text of a cue without a translation language: hidden cues
/// are blank.
pub open spec fn plain_caption_text(s: SentenceView, hidden: Seq<Seq<char>>) -> Seq<char> {
    if hidden.contains(s.id) {
        Seq::empty()
    } else {
        s.text
    }
}

/// The exported text of a cue with a translation language: the trimmed
/// translation, below the trimmed source text when bilingual. Cues without
/// words keep their text, and so do cues with a missing or outdated
/// translation (those fail the export); hidden ones are blank.
pub open spec fn caption_text(
    s: SentenceView,
    hidden: Seq<Seq<char>>,
    track: Option<Map<Seq<char>, TranslationGroupView>>,
    bilingual: bool,
) -> Seq<char> {
    if s.words.len() == 0 {
        s.text
    } else if hidden.contains(s.id) {
        Seq::empty()
    } else if cue_missing(s, hidden, track) || cue_stale(s, hidden, track) {
        s.text
    } else {
        let t = trimmed(track.unwrap()[s.id].text);
        if bilingual {
            trimmed(s.text) + seq!['\n'] + t
        } else {
            t
        }
    }
}

/// `p` with each sentence's text replaced by `f` of the sentence.
pub open spec fn project_para(p: ParagraphView, f: spec_fn(SentenceView) -> Seq<char>) -> ParagraphView {
    ParagraphView {
        id: p.id,
        speaker: p.speaker,
        sentences: Seq::new(
            p.sentences.len(),
            |i: int|
                SentenceView {
                    id: p.sentences[i].id,
                    text: f(p.sentences[i]),
                    words: p.sentences[i].words,
                },
        ),
    }
}

pub open spec fn project_paras(ps: Seq<ParagraphView>, f: spec_fn(SentenceView) -> Seq<char>) -> Seq<
    ParagraphView,
> {
    Seq::new(ps.len(), |k: int| project_para(ps[k], f))
}

/// The ids of the sentences that satisfy `pred`, in order.
pub open spec fn ids_where(ss: Seq<SentenceView>, pred: spec_fn(SentenceView) -> bool) -> Seq<Seq<char>>
    decreases ss.len(),
{
    if ss.len() == 0 {
        Seq::empty()
    } else {
        ids_where(ss.drop_last(), pred) + if pred(ss.last()) {
            seq![ss.last().id]
        } else {
            Seq::empty()
        }
    }
}

/// The ids of the document's sentences that satisfy `pred`, in order.
pub open spec fn para_ids_where(ps: Seq<ParagraphView>, pred: spec_fn(SentenceView) -> bool) -> Seq<
    Seq<char>,
>
    decreases ps.len(),
{
    if ps.len() == 0 {
        Seq::empty()
    } else {
        para_ids_where(ps.drop_last(), pred) + ids_where(ps.last().sentences, pred)
    }
}

/// The projected document carries over everything but paragraphs and the
/// language.
pub open spec fn copied_doc(d: Doc, doc: Doc) -> bool {
    &&& d.id@ == doc.id@
    &&& d.schema == doc.schema
    &&& same_media(d.media, doc.media)
    &&& same_meta_but_language(d.meta, doc.meta)
    &&& tracks_view(d.translations@) == tracks_view(doc.translations@)
}

/// At most the first three of `ids`.
pub open spec fn first_three(ids: Seq<Seq<char>>) -> Seq<Seq<char>> {
    if ids.len() < 3 {
        ids
    } else {
        ids.take(3)
    }
}

pub open spec fn no_track_message(lang: Seq<char>) -> Seq<char> {
    "translation track `"@ + lang + "` does not exist; translate the project before exporting"@
}

pub open spec fn missing_message(lang: Seq<char>, ids: Seq<Seq<char>>) -> Seq<char> {
    "translation track `"@ + lang + "` is missing "@ + decimal(ids.len()) + " subtitle line(s), including "@
        + join_with(first_three(ids), ", "@)
}

pub open spec fn stale_message(lang: Seq<char>, ids: Seq<Seq<char>>) -> Seq<char> {
    "translation track `"@ + lang + "` has "@ + decimal(ids.len())
        + " outdated subtitle line(s), including "@ + join_with(first_three(ids), ", "@)
        + "; retranslate them before exporting"@
}

/// Appends the first three of `ids` joined with ", ".
fn push_first_three(out: &mut String, ids: &Vec<String>)
    ensures
        final(out)@ == old(out)@ + join_with(first_three(strings_view(ids@)), ", "@),
{
    let ghost v = strings_view(ids@);
    let n: usize = if ids.len() < 3 {
        ids.len()
    } else {
        3
    };
    let ghost start = out@;
    let mut i: usize = 0;
    while i < n
        invariant
            v == strings_view(ids@),
            n <= ids@.len(),
            n as int == first_three(v).len(),
            0 <= i <= n,
            out@ == start + join_with(first_three(v).subrange(0, i as int), ", "@),
        decreases n - i,
    {
        let ghost t = first_three(v);
        proof {
            assert(t.subrange(0, i + 1) =~= t.subrange(0, i as int).push(t[i as int]));
            lemma_join_with_push(t.subrange(0, i as int), ", "@, t[i as int]);
        }
        if i > 0 {
            push_str(out, ", ");
        }
        push_str(out, ids[i].as_str());
        assert(t[i as int] == ids@[i as int]@);
        i = i + 1;
        assert(out@ =~= start + join_with(t.subrange(0, i as int), ", "@));
    }
    assert(first_three(v).subrange(0, n as int) =~= first_three(v));
}

/// A copy of a sentence with another text.
fn with_text(s: &Sentence, text: String) -> (r: Sentence)
    ensures
        r@ == (SentenceView { id: s@.id, text: text@, words: s@.words }),
{
    Sentence { id: s.id.clone(), text, words: copy_words(&s.words) }
}

/// A document for caption export without a translation language: hidden
/// cues become blank.
fn project_plain(doc: &Doc, hidden: &Vec<String>) -> (r: Vec<Paragraph>)
    ensures
        paragraphs_view(r@) == project_paras(
            doc.paragraphs_v(),
            |s: SentenceView| plain_caption_text(s, strings_view(hidden@)),
        ),
{
    let ghost ps = doc.paragraphs_v();
    let ghost f = |s: SentenceView| plain_caption_text(s, strings_view(hidden@));
    let mut out: Vec<Paragraph> = Vec::new();
    let mut p: usize = 0;
    while p < doc.paragraphs.len()
        invariant
            ps == doc.paragraphs_v(),
            f == (|s: SentenceView| plain_caption_text(s, strings_view(hidden@))),
            0 <= p <= ps.len(),
            out@.len() == p,
            forall|k: int| 0 <= k < p ==> #[trigger] out@[k]@ == project_para(ps[k], f),
        decreases ps.len() - p,
    {
        let para = &doc.paragraphs[p];
        assert(ps[p as int] == para@);
        let ghost pv = para@;
        let mut ss: Vec<Sentence> = Vec::new();
        let mut i: usize = 0;
        while i < para.sentences.len()
            invariant
                pv == para@,
                f == (|s: SentenceView| plain_caption_text(s, strings_view(hidden@))),
                0 <= i <= pv.sentences.len(),
                sentences_view(ss@) == project_para(pv, f).sentences.subrange(0, i as int),
            decreases pv.sentences.len() - i,
        {
            let s = &para.sentences[i];
            assert(pv.sentences[i as int] == s@);
            let text = if contains_id(hidden, s.id.as_str()) {
                String::new()
            } else {
                s.text.clone()
            };
            let ghost before = ss@;
            let n = with_text(s, text);
            ss.push(n);
            assert(sentences_view(ss@) =~= sentences_view(before).push(n@));
            i = i + 1;
            assert(sentences_view(ss@) =~= project_para(pv, f).sentences.subrange(0, i as int));
        }
        assert(project_para(pv, f).sentences.subrange(0, i as int) =~= project_para(pv, f).sentences);
        let np = Paragraph { id: para.id, speaker: clone_opt_string(&para.speaker), sentences: ss };
        out.push(np);
        p = p + 1;
    }
    assert(paragraphs_view(out@) =~= project_paras(ps, f));
    out
}

pub proof fn lemma_ids_where_push(ss: Seq<SentenceView>, pred: spec_fn(SentenceView) -> bool, x: SentenceView)
    ensures
        ids_where(ss.push(x), pred) == ids_where(ss, pred) + if pred(x) {
            seq![x.id]
        } else {
            Seq::empty()
        },
{
    assert(ss.push(x).drop_last() =~= ss);
}

pub proof fn lemma_para_ids_where_push(ps: Seq<ParagraphView>, pred: spec_fn(SentenceView) -> bool, x: ParagraphView)
    ensures
        para_ids_where(ps.push(x), pred) == para_ids_where(ps, pred) + ids_where(x.sentences, pred),
{
    assert(ps.push(x).drop_last() =~= ps);
}

/// Which track holds the translations of `lang`, as `last_track` finds it.
pub open spec fn track_found(ts: Seq<crate::doc::TranslationTrack>, lang: Seq<char>, track: Option<usize>) -> bool {
    match track {
        None => !tracks_map(ts).contains_key(lang),
        Some(t) => t < ts.len() && tracks_map(ts).contains_key(lang) && tracks_map(ts)[lang]
            == crate::doc::entries_map(ts[t as int].entries@),
    }
}

/// Projects every cue onto its exported text in language `lang`, and
/// collects the cues whose translation is missing or outdated.
fn project_translated(
    doc: &Doc,
    hidden: &Vec<String>,
    lang: &str,
    track: Option<usize>,
    bilingual: bool,
) -> (r: (Vec<Paragraph>, Vec<String>, Vec<String>))
    requires
        track_found(doc.translations@, lang@, track),
    ensures
        ({
            let ps = doc.paragraphs_v();
            let hv = strings_view(hidden@);
            let tr = caption_track(doc.translations@, lang@);
            &&& paragraphs_view(r.0@) == project_paras(
                ps,
                |s: SentenceView| caption_text(s, hv, tr, bilingual),
            )
            &&& strings_view(r.1@) == para_ids_where(ps, |s: SentenceView| cue_missing(s, hv, tr))
            &&& strings_view(r.2@) == para_ids_where(ps, |s: SentenceView| cue_stale(s, hv, tr))
        }),
{
    let ghost ps = doc.paragraphs_v();
    let ghost ts = doc.translations@;
    let ghost hv = strings_view(hidden@);
    let ghost tr = caption_track(ts, lang@);
    let ghost f = |s: SentenceView| caption_text(s, hv, tr, bilingual);
    let ghost fm = |s: SentenceView| cue_missing(s, hv, tr);
    let ghost fs = |s: SentenceView| cue_stale(s, hv, tr);
    let mut out: Vec<Paragraph> = Vec::new();
    let mut missing: Vec<String> = Vec::new();
    let mut stale: Vec<String> = Vec::new();
    let mut p: usize = 0;
    while p < doc.paragraphs.len()
        invariant
            ps == doc.paragraphs_v(),
            ts == doc.translations@,
            hv == strings_view(hidden@),
            tr == caption_track(ts, lang@),
            track_found(ts, lang@, track),
            f == (|s: SentenceView| caption_text(s, hv, tr, bilingual)),
            fm == (|s: SentenceView| cue_missing(s, hv, tr)),
            fs == (|s: SentenceView| cue_stale(s, hv, tr)),
            0 <= p <= ps.len(),
            out@.len() == p,
            forall|k: int| 0 <= k < p ==> #[trigger] out@[k]@ == project_para(ps[k], f),
            strings_view(missing@) == para_ids_where(ps.subrange(0, p as int), fm),
            strings_view(stale@) == para_ids_where(ps.subrange(0, p as int), fs),
        decreases ps.len() - p,
    {
        let para = &doc.paragraphs[p];
        assert(ps[p as int] == para@);
        let ghost pv = para@;
        let ghost m0 = strings_view(missing@);
        let ghost s0 = strings_view(stale@);
        let mut ss: Vec<Sentence> = Vec::new();
        let mut i: usize = 0;
        while i < para.sentences.len()
            invariant
                pv == para@,
                ts == doc.translations@,
                hv == strings_view(hidden@),
                tr == caption_track(ts, lang@),
                track_found(ts, lang@, track),
                f == (|s: SentenceView| caption_text(s, hv, tr, bilingual)),
                fm == (|s: SentenceView| cue_missing(s, hv, tr)),
                fs == (|s: SentenceView| cue_stale(s, hv, tr)),
                0 <= i <= pv.sentences.len(),
                sentences_view(ss@) == project_para(pv, f).sentences.subrange(0, i as int),
                strings_view(missing@) == m0 + ids_where(pv.sentences.subrange(0, i as int), fm),
                strings_view(stale@) == s0 + ids_where(pv.sentences.subrange(0, i as int), fs),
            decreases pv.sentences.len() - i,
        {
            let s = &para.sentences[i];
            let ghost sv = s@;
            assert(pv.sentences[i as int] == sv);
            proof {
                assert(pv.sentences.subrange(0, i + 1) =~= pv.sentences.subrange(0, i as int).push(sv));
                lemma_ids_where_push(pv.sentences.subrange(0, i as int), fm, sv);
                lemma_ids_where_push(pv.sentences.subrange(0, i as int), fs, sv);
            }
            let ghost mb = missing@;
            let ghost sb = stale@;
            let text: String;
            if s.words.len() == 0 {
                text = s.text.clone();
            } else if contains_id(hidden, s.id.as_str()) {
                text = String::new();
            } else {
                let entry = match track {
                    None => None,
                    Some(t) => lookup_entry(&doc.translations[t].entries, s.id.as_str()),
                };
                match entry {
                    None => {
                        missing.push(s.id.clone());
                        text = s.text.clone();
                    },
                    Some(g) => {
                        if blank(g.text.as_str()) {
                            missing.push(s.id.clone());
                            text = s.text.clone();
                        } else {
                            let outdated = match &g.source_text {
                                Some(src) => !str_eq(trim(src.as_str()), trim(s.text.as_str())),
                                None => false,
                            };
                            if outdated {
                                stale.push(s.id.clone());
                                text = s.text.clone();
                            } else {
                                let mut t = String::new();
                                if bilingual {
                                    push_str(&mut t, trim(s.text.as_str()));
                                    push_str(&mut t, "\n");
                                    proof {
                                        reveal_strlit("\n");
                                    }
                                }
                                push_str(&mut t, trim(g.text.as_str()));
                                text = t;
                            }
                        }
                    },
                }
            }
            assert(strings_view(missing@) =~= strings_view(mb) + if fm(sv) {
                seq![sv.id]
            } else {
                Seq::empty()
            });
            assert(strings_view(stale@) =~= strings_view(sb) + if fs(sv) {
                seq![sv.id]
            } else {
                Seq::empty()
            });
            assert(text@ == f(sv));
            let ghost before = ss@;
            let n = with_text(s, text);
            ss.push(n);
            assert(sentences_view(ss@) =~= sentences_view(before).push(n@));
            i = i + 1;
            assert(sentences_view(ss@) =~= project_para(pv, f).sentences.subrange(0, i as int));
        }
        assert(project_para(pv, f).sentences.subrange(0, i as int) =~= project_para(pv, f).sentences);
        assert(pv.sentences.subrange(0, i as int) =~= pv.sentences);
        proof {
            assert(ps.subrange(0, p + 1) =~= ps.subrange(0, p as int).push(pv));
            lemma_para_ids_where_push(ps.subrange(0, p as int), fm, pv);
            lemma_para_ids_where_push(ps.subrange(0, p as int), fs, pv);
        }
        let np = Paragraph { id: para.id, speaker: clone_opt_string(&para.speaker), sentences: ss };
        out.push(np);
        p = p + 1;
    }
    assert(paragraphs_view(out@) =~= project_paras(ps, f));
    assert(ps.subrange(0, p as int) =~= ps);
    (out, missing, stale)
}

/// Whether some cue of the document would be exported.
fn has_shown_cue(doc: &Doc, hidden: &Vec<String>) -> (r: bool)
    ensures
        r == (para_ids_where(
            doc.paragraphs_v(),
            |s: SentenceView| cue_shown(s, strings_view(hidden@)),
        ).len() > 0),
{
    let ghost ps = doc.paragraphs_v();
    let ghost g = |s: SentenceView| cue_shown(s, strings_view(hidden@));
    let mut p: usize = 0;
    while p < doc.paragraphs.len()
        invariant
            ps == doc.paragraphs_v(),
            g == (|s: SentenceView| cue_shown(s, strings_view(hidden@))),
            0 <= p <= ps.len(),
            para_ids_where(ps.subrange(0, p as int), g).len() == 0,
        decreases ps.len() - p,
    {
        let para = &doc.paragraphs[p];
        assert(ps[p as int] == para@);
        let ghost pv = para@;
        let mut i: usize = 0;
        while i < para.sentences.len()
            invariant
                pv == para@,
                ps == doc.paragraphs_v(),
                p < ps.len(),
                pv == ps[p as int],
                g == (|s: SentenceView| cue_shown(s, strings_view(hidden@))),
                0 <= i <= pv.sentences.len(),
                ids_where(pv.sentences.subrange(0, i as int), g).len() == 0,
            decreases pv.sentences.len() - i,
        {
            let s = &para.sentences[i];
            assert(pv.sentences[i as int] == s@);
            proof {
                assert(pv.sentences.subrange(0, i + 1) =~= pv.sentences.subrange(0, i as int).push(s@));
                lemma_ids_where_push(pv.sentences.subrange(0, i as int), g, s@);
            }
            if s.words.len() > 0 && !contains_id(hidden, s.id.as_str()) {
                proof {
                    let pre = ps.subrange(0, p as int);
                    assert(ps.subrange(0, p + 1) =~= pre.push(pv));
                    lemma_para_ids_where_push(pre, g, pv);
                    lemma_ids_where_len(pv.sentences, g, i as int);
                    lemma_para_ids_where_prefix(ps, g, p + 1);
                }
                return true;
            }
            i = i + 1;
        }
        proof {
            assert(pv.sentences.subrange(0, i as int) =~= pv.sentences);
            assert(ps.subrange(0, p + 1) =~= ps.subrange(0, p as int).push(pv));
            lemma_para_ids_where_push(ps.subrange(0, p as int), g, pv);
        }
        p = p + 1;
    }
    assert(ps.subrange(0, p as int) =~= ps);
    false
}

/// A prefix holding a sentence that satisfies `pred` gives a non-empty list.
pub proof fn lemma_ids_where_len(ss: Seq<SentenceView>, pred: spec_fn(SentenceView) -> bool, i: int)
    requires
        0 <= i < ss.len(),
        pred(ss[i]),
    ensures
        ids_where(ss, pred).len() > 0,
    decreases ss.len(),
{
    if i < ss.len() - 1 {
        lemma_ids_where_len(ss.drop_last(), pred, i);
    }
}

/// The list for a document is at least as long as that of a prefix.
pub proof fn lemma_para_ids_where_prefix(ps: Seq<ParagraphView>, pred: spec_fn(SentenceView) -> bool, k: int)
    requires
        0 <= k <= ps.len(),
    ensures
        para_ids_where(ps, pred).len() >= para_ids_where(ps.subrange(0, k), pred).len(),
    decreases ps.len(),
{
    if k < ps.len() {
        assert(ps.drop_last().subrange(0, k) =~= ps.subrange(0, k));
        lemma_para_ids_where_prefix(ps.drop_last(), pred, k);
    } else {
        assert(ps.subrange(0, k) =~= ps);
    }
}

/// The caption document as exported: every cue shows the text it is
/// exported with.
///
/// Without a language, hidden cues become blank; asking for bilingual
/// captions then is an error. With a language, each exported cue shows its
/// trimmed translation (below its trimmed source text when bilingual) and
/// hidden cues become blank. It is an error when the language has no track
/// while some cue is exported, when an exported cue has no translation or a
/// blank one (the message counts them and names the first three), and
/// otherwise when a translation was made from another source text.
pub fn project_caption_doc_with_hidden(
    doc: &Doc,
    language: Option<&str>,
    bilingual: bool,
    hidden: &Vec<String>,
) -> (r: AppResult<Doc>)
    ensures
        ({
            let ps = doc.paragraphs_v();
            let ts = doc.translations@;
            let hv = strings_view(hidden@);
            match language {
                None => if bilingual {
                    schema_error(r, "bilingual subtitles require a translation language"@)
                } else {
                    r matches Ok(d) && copied_doc(d, *doc) && opt_str_view(d.meta.language)
                        == opt_str_view(doc.meta.language) && d.paragraphs_v() == project_paras(
                        ps,
                        |s: SentenceView| plain_caption_text(s, hv),
                    )
                },
                Some(l) => {
                    let tr = caption_track(ts, l@);
                    let shown = para_ids_where(ps, |s: SentenceView| cue_shown(s, hv));
                    let missing = para_ids_where(ps, |s: SentenceView| cue_missing(s, hv, tr));
                    let stale = para_ids_where(ps, |s: SentenceView| cue_stale(s, hv, tr));
                    if tr is None && shown.len() > 0 {
                        schema_error(r, no_track_message(l@))
                    } else if missing.len() > 0 {
                        schema_error(r, missing_message(l@, missing))
                    } else if stale.len() > 0 {
                        schema_error(r, stale_message(l@, stale))
                    } else {
                        r matches Ok(d) && copied_doc(d, *doc) && opt_str_view(d.meta.language)
                            == Some(l@) && d.paragraphs_v() == project_paras(
                            ps,
                            |s: SentenceView| caption_text(s, hv, tr, bilingual),
                        )
                    }
                },
            }
        }),
{
    match language {
        None => {
            if bilingual {
                let mut m = String::new();
                push_str(&mut m, "bilingual subtitles require a translation language");
                return Err(AppError::Schema(m));
            }
            let paragraphs = project_plain(doc, hidden);
            let d = Doc {
                id: doc.id.clone(),
                schema: doc.schema,
                media: copy_media(&doc.media),
                meta: Meta {
                    title: doc.meta.title.clone(),
                    description: doc.meta.description.clone(),
                    language: clone_opt_string(&doc.meta.language),
                    created_at: doc.meta.created_at.clone(),
                    updated_at: doc.meta.updated_at.clone(),
                },
                paragraphs,
                translations: copy_tracks(&doc.translations),
            };
            Ok(d)
        },
        Some(l) => {
            let track = last_track(&doc.translations, l);
            if track.is_none() && has_shown_cue(doc, hidden) {
                let mut m = String::new();
                push_str(&mut m, "translation track `");
                push_str(&mut m, l);
                push_str(&mut m, "` does not exist; translate the project before exporting");
                return Err(AppError::Schema(m));
            }
            let (paragraphs, missing, stale) = project_translated(doc, hidden, l, track, bilingual);
            if missing.len() > 0 {
                let mut m = String::new();
                push_str(&mut m, "translation track `");
                push_str(&mut m, l);
                push_str(&mut m, "` is missing ");
                push_decimal(&mut m, missing.len() as u64);
                push_str(&mut m, " subtitle line(s), including ");
                push_first_three(&mut m, &missing);
                return Err(AppError::Schema(m));
            }
            if stale.len() > 0 {
                let mut m = String::new();
                push_str(&mut m, "translation track `");
                push_str(&mut m, l);
                push_str(&mut m, "` has ");
                push_decimal(&mut m, stale.len() as u64);
                push_str(&mut m, " outdated subtitle line(s), including ");
                push_first_three(&mut m, &stale);
                push_str(&mut m, "; retranslate them before exporting");
                return Err(AppError::Schema(m));
            }
            let d = Doc {
                id: doc.id.clone(),
                schema: doc.schema,
                media: copy_media(&doc.media),
                meta: Meta {
                    title: doc.meta.title.clone(),
                    description: doc.meta.description.clone(),
                    language: Some(owned(l)),
                    created_at: doc.meta.created_at.clone(),
                    updated_at: doc.meta.updated_at.clone(),
                },
                paragraphs,
                translations: copy_tracks(&doc.translations),
            };
            Ok(d)
        },
    }
}

/// `project_caption_doc_with_hidden` with no hidden cues.
pub fn project_caption_doc(doc: &Doc, language: Option<&str>, bilingual: bool) -> (r: AppResult<Doc>)
    ensures
        ({
            let ps = doc.paragraphs_v();
            let ts = doc.translations@;
            let hv = Seq::<Seq<char>>::empty();
            match language {
                None => if bilingual {
                    schema_error(r, "bilingual subtitles require a translation language"@)
                } else {
                    r matches Ok(d) && copied_doc(d, *doc) && opt_str_view(d.meta.language)
                        == opt_str_view(doc.meta.language) && d.paragraphs_v() == project_paras(
                        ps,
                        |s: SentenceView| plain_caption_text(s, hv),
                    )
                },
                Some(l) => {
                    let tr = caption_track(ts, l@);
                    let shown = para_ids_where(ps, |s: SentenceView| cue_shown(s, hv));
                    let missing = para_ids_where(ps, |s: SentenceView| cue_missing(s, hv, tr));
                    let stale = para_ids_where(ps, |s: SentenceView| cue_stale(s, hv, tr));
                    if tr is None && shown.len() > 0 {
                        schema_error(r, no_track_message(l@))
                    } else if missing.len() > 0 {
                        schema_error(r, missing_message(l@, missing))
                    } else if stale.len() > 0 {
                        schema_error(r, stale_message(l@, stale))
                    } else {
                        r matches Ok(d) && copied_doc(d, *doc) && opt_str_view(d.meta.language)
                            == Some(l@) && d.paragraphs_v() == project_paras(
                            ps,
                            |s: SentenceView| caption_text(s, hv, tr, bilingual),
                        )
                    }
                },
            }
        }),
{
    let none: Vec<String> = Vec::new();
    assert(strings_view(none@) =~= Seq::<Seq<char>>::empty());
    project_caption_doc_with_hidden(doc, language, bilingual, &none)
}

/// Scaling the short edge by a ratio of at least one does not shrink it.
pub proof fn lemma_scaled_edge_grows(short: nat, num: nat, den: nat)
    requires
        den > 0,
        num >= den,
    ensures
        scaled_edge(short, num, den) >= short,
{
    assert(2 * short * num + den >= 2 * short * den) by (nonlinear_arith)
        requires
            num >= den,
    ;
    assert((2 * short * num + den) / (2 * den) >= (2 * short * den) / (2 * den)) by (nonlinear_arith)
        requires
            2 * short * num + den >= 2 * short * den,
            den > 0,
    ;
    assert((2 * short * den) / (2 * den) == short) by (nonlinear_arith)
        requires
            den > 0,
    ;
}

/// A fixed-ratio canvas has even edges, a short edge of at least two
/// pixels, and the orientation of its ratio.
pub proof fn law_canvas_is_even_and_oriented(rw: nat, rh: nat, short: nat)
    requires
        rw > 0,
        rh > 0,
    ensures
        dims_for_ratio(rw, rh, short).0 % 2 == 0,
        dims_for_ratio(rw, rh, short).1 % 2 == 0,
        dims_for_ratio(rw, rh, short).0 >= 2,
        dims_for_ratio(rw, rh, short).1 >= 2,
        rw >= rh ==> dims_for_ratio(rw, rh, short).0 >= dims_for_ratio(rw, rh, short).1,
        rw <= rh ==> dims_for_ratio(rw, rh, short).1 >= dims_for_ratio(rw, rh, short).0,
{
    let s = even_short(short);
    if rw >= rh {
        lemma_scaled_edge_grows(s, rw, rh);
        if rw == rh {
            assert((2 * s * rw + rw) / (2 * rw) == s) by (nonlinear_arith)
                requires
                    rw > 0,
            ;
            assert(s % 2 == 0);
        }
    } else {
        lemma_scaled_edge_grows(s, rh, rw);
    }
}

/// Projecting captions for export changes only cue texts: paragraphs,
/// speakers, cue ids and every word with its timing stay as they were.
pub proof fn law_caption_projection_keeps_timing(
    ps: Seq<ParagraphView>,
    f: spec_fn(SentenceView) -> Seq<char>,
    p: int,
    i: int,
)
    requires
        0 <= p < ps.len(),
        0 <= i < ps[p].sentences.len(),
    ensures
        project_paras(ps, f).len() == ps.len(),
        project_paras(ps, f)[p].id == ps[p].id,
        project_paras(ps, f)[p].speaker == ps[p].speaker,
        project_paras(ps, f)[p].sentences.len() == ps[p].sentences.len(),
        project_paras(ps, f)[p].sentences[i].id == ps[p].sentences[i].id,
        project_paras(ps, f)[p].sentences[i].words == ps[p].sentences[i].words,
{
}


/// The export canvas has the orientation its aspect setting names, with the
/// quality tier as its shorter edge (rounded up to even): a portrait 4:5
/// canvas is taller than wide, about 5/4 of its width; a portrait 9:16
/// canvas is taller than wide; a landscape 16:9 canvas is wider than tall;
/// a square canvas has equal edges.
pub proof fn law_canvas_follows_the_aspect_setting(s: VideoExportSettings, source: Option<(u32, u32)>)
    requires
        s.aspect_ratio != ExportAspectRatio::Source,
    ensures
        s.target_spec(source) matches Some((w, h)) && ({
            let short = even_short(s.short_edge_spec(source));
            &&& s.aspect_ratio == ExportAspectRatio::Portrait4x5 ==> w == short && w < h && 5 * w < 4 * h + 2
                && 4 * h <= 5 * w + 6
            &&& s.aspect_ratio == ExportAspectRatio::Portrait9x16 ==> w == short && w < h
            &&& s.aspect_ratio == ExportAspectRatio::Landscape16x9 ==> h == short && h < w
            &&& s.aspect_ratio == ExportAspectRatio::Square1x1 ==> w == short && h == short
        }),
{
    let short = even_short(s.short_edge_spec(source));
    assert(short >= 2 && short % 2 == 0);
    match s.aspect_ratio {
        ExportAspectRatio::Portrait4x5 => {
            let x = scaled_edge(short, 5, 4);
            assert(x == (10 * short + 4) / 8) by (nonlinear_arith)
                requires
                    x == (2 * short * 5 + 4) / (2 * 4),
            ;
            assert(8 * x <= 10 * short + 4 && 10 * short + 4 < 8 * x + 8);
        },
        ExportAspectRatio::Portrait9x16 => {
            let x = scaled_edge(short, 16, 9);
            assert(x == (32 * short + 9) / 18) by (nonlinear_arith)
                requires
                    x == (2 * short * 16 + 9) / (2 * 9),
            ;
            assert(18 * x <= 32 * short + 9 && 32 * short + 9 < 18 * x + 18);
        },
        ExportAspectRatio::Landscape16x9 => {
            let x = scaled_edge(short, 16, 9);
            assert(x == (32 * short + 9) / 18) by (nonlinear_arith)
                requires
                    x == (2 * short * 16 + 9) / (2 * 9),
            ;
            assert(18 * x <= 32 * short + 9 && 32 * short + 9 < 18 * x + 18);
        },
        ExportAspectRatio::Square1x1 => {
            let x = scaled_edge(short, 1, 1);
            assert(x == (2 * short + 1) / 2) by (nonlinear_arith)
                requires
                    x == (2 * short * 1 + 1) / (2 * 1),
            ;
        },
        ExportAspectRatio::Source => {},
    }
}

/// Exporting without a translation blanks exactly the hidden cues: a hidden
/// cue's text is empty, every other cue keeps its text, and ids and words
/// stay.
pub proof fn law_plain_captions_blank_hidden_cues(ps: Seq<ParagraphView>, hidden: Seq<Seq<char>>, p: int, i: int)
    requires
        0 <= p < ps.len(),
        0 <= i < ps[p].sentences.len(),
    ensures
        ({
            let out = project_paras(ps, |s: SentenceView| plain_caption_text(s, hidden))[p].sentences[i];
            let cue = ps[p].sentences[i];
            &&& out.id == cue.id
            &&& out.words == cue.words
            &&& hidden.contains(cue.id) ==> out.text.len() == 0
            &&& !hidden.contains(cue.id) ==> out.text == cue.text
        }),
{
}

/// Exporting with a translation blanks every hidden cue that has timed
/// words (cues without words are not captions and keep their text).
pub proof fn law_translated_captions_blank_hidden_cues(
    ps: Seq<ParagraphView>,
    hidden: Seq<Seq<char>>,
    track: Option<Map<Seq<char>, TranslationGroupView>>,
    bilingual: bool,
    p: int,
    i: int,
)
    requires
        0 <= p < ps.len(),
        0 <= i < ps[p].sentences.len(),
    ensures
        ({
            let out = project_paras(ps, |s: SentenceView| caption_text(s, hidden, track, bilingual))[p].sentences[i];
            let cue = ps[p].sentences[i];
            &&& out.id == cue.id
            &&& out.words == cue.words
            &&& hidden.contains(cue.id) && cue.words.len() > 0 ==> out.text.len() == 0
            &&& cue.words.len() == 0 ==> out.text == cue.text
        }),
{
}
} // verus!
