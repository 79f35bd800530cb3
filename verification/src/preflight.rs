//! The export preflight report: which checks pass, warn or block a video
//! export, in the order the report lists them. The caller loads the project
//! files, probes the media and the encoder, and compares seconds; it hands
//! the outcomes here, and this module decides the items.

use vstd::prelude::*;

use crate::commands::{items_view, push_export_preflight_item, ExportPreflightItem, PreflightItemView};
use crate::export_settings::{ExportContainer, ExportSubtitleMode, ExportVideoCodec, VideoExportSettings};
use crate::text::{decimal, join_with, lemma_join_with_push, push_decimal, push_str};

verus! {

/// The project files the preflight reads: the error of each that could not
/// be read, `None` for each that was read.
pub struct PreflightLoads {
    pub cuts_error: Option<String>,
    pub broll_error: Option<String>,
    pub titles_error: Option<String>,
    pub hidden_error: Option<String>,
    pub style_error: Option<String>,
}

/// What probing the source media found.
pub enum MediaCheck {
    /// The file is not there (its path, as shown).
    Missing(String),
    /// The media has a picture and a duration: the pass message, and the
    /// warning when the project's duration differs from the file's.
    Readable { message: String, duration_warning: Option<String> },
    /// The probe found no picture or no duration.
    NoStream,
    /// The probe failed with this error.
    Undecodable(String),
}

/// Whether the cuts leave anything of the timeline.
pub enum TimelineCheck {
    /// The cuts remove the whole timeline.
    Empty,
    /// Something is kept: the pass message (the edited duration).
    Kept(String),
}

/// One background music clip of the audio mix.
pub enum TrackCheck {
    Ready,
    Missing { id: String, path: String },
    NoStream { id: String },
    Undecodable { id: String, error: String },
}

/// The audio mix fitted to the edited duration.
pub enum AudioCheck {
    /// The mix could not be read or fitted: the error.
    Unusable(String),
    /// The mix: its music clips, whether program audio is muted, and the
    /// message describing its levels.
    Mix { tracks: Vec<TrackCheck>, muted: bool, levels_message: String },
}

/// The encoder the settings select, and whether FFmpeg provides it.
pub enum EncoderCheck {
    /// The settings select no encoder that can be checked.
    NotSelected,
    Available(String),
    NotProvided(String),
    /// FFmpeg could not be asked: the error.
    Unavailable(String),
}

pub open spec fn item(code: Seq<char>, level: Seq<char>, message: Seq<char>) -> PreflightItemView {
    PreflightItemView { code, level, message }
}

/// A blocker for a file that could not be read.
pub open spec fn load_item(error: Option<String>, code: Seq<char>, prefix: Seq<char>) -> Seq<PreflightItemView> {
    match error {
        Some(e) => seq![item(code, "blocker"@, prefix + e@)],
        None => Seq::empty(),
    }
}

pub open spec fn load_items(l: &PreflightLoads) -> Seq<PreflightItemView> {
    load_item(l.cuts_error, "timeline-data"@, "timeline edits cannot be read: "@)
        + load_item(l.broll_error, "broll"@, "B-roll placements cannot be read: "@)
        + load_item(l.titles_error, "titles"@, "titles cannot be read: "@)
        + load_item(l.hidden_error, "caption-state"@, "caption visibility cannot be read: "@)
        + load_item(l.style_error, "style"@, "subtitle style cannot be read: "@)
}

pub open spec fn container_label(c: ExportContainer) -> Seq<char> {
    match c {
        ExportContainer::Mp4 => "MP4"@,
        ExportContainer::Mov => "MOV"@,
    }
}

pub open spec fn codec_label(c: ExportVideoCodec) -> Seq<char> {
    match c {
        ExportVideoCodec::H264 => "H264"@,
        ExportVideoCodec::Hevc => "Hevc"@,
        ExportVideoCodec::Prores => "Prores"@,
    }
}

pub open spec fn settings_items(s: &VideoExportSettings) -> Seq<PreflightItemView> {
    match s.validation_error() {
        Some(m) => seq![item("settings"@, "blocker"@, m)],
        None => seq![
            item(
                "settings"@,
                "pass"@,
                container_label(s.container) + " / "@ + codec_label(s.video_codec)
                    + " settings are compatible"@,
            ),
        ],
    }
}

pub open spec fn media_items(m: &MediaCheck) -> Seq<PreflightItemView> {
    match m {
        MediaCheck::Missing(p) => seq![item("media"@, "blocker"@, "source media is missing: "@ + p@)],
        MediaCheck::Readable { message, duration_warning } => seq![item("media"@, "pass"@, message@)]
            + match duration_warning {
            Some(w) => seq![item("media-duration"@, "warning"@, w@)],
            None => Seq::empty(),
        },
        MediaCheck::NoStream => seq![
            item("media"@, "blocker"@, "source media has no decodable video stream or duration"@),
        ],
        MediaCheck::Undecodable(e) => seq![
            item("media"@, "blocker"@, "source media cannot be decoded: "@ + e@),
        ],
    }
}

pub open spec fn timeline_items(t: &TimelineCheck) -> Seq<PreflightItemView> {
    match t {
        TimelineCheck::Empty => seq![
            item("timeline"@, "blocker"@, "the current cuts remove the entire media timeline"@),
        ],
        TimelineCheck::Kept(m) => seq![item("timeline"@, "pass"@, m@)],
    }
}

pub open spec fn strs(v: Seq<String>) -> Seq<Seq<char>> {
    Seq::new(v.len(), |i: int| v[i]@)
}

/// The titles or B-roll check: nothing more when the file could not be
/// read (its blocker stands), a pass naming the count when every item is
/// valid, else one blocker listing the problems.
pub open spec fn list_items(
    load_error: Option<String>,
    code: Seq<char>,
    count: usize,
    pass_suffix: Seq<char>,
    invalid: Seq<String>,
) -> Seq<PreflightItemView> {
    if load_error is Some {
        Seq::empty()
    } else if invalid.len() == 0 {
        seq![item(code, "pass"@, decimal(count as nat) + pass_suffix)]
    } else {
        seq![item(code, "blocker"@, join_with(strs(invalid), "; "@))]
    }
}

pub open spec fn track_item(t: TrackCheck) -> Seq<PreflightItemView> {
    match t {
        TrackCheck::Ready => Seq::empty(),
        TrackCheck::Missing { id, path } => seq![
            item("audio"@, "blocker"@, "background music "@ + id@ + " is missing: "@ + path@),
        ],
        TrackCheck::NoStream { id } => seq![
            item("audio"@, "blocker"@, "background music "@ + id@ + " has no decodable audio stream"@),
        ],
        TrackCheck::Undecodable { id, error } => seq![
            item("audio"@, "blocker"@, "background music "@ + id@ + " cannot be decoded: "@ + error@),
        ],
    }
}

pub open spec fn track_items(ts: Seq<TrackCheck>) -> Seq<PreflightItemView>
    decreases ts.len(),
{
    if ts.len() == 0 {
        Seq::empty()
    } else {
        track_items(ts.drop_last()) + track_item(ts.last())
    }
}

pub open spec fn ready_count(ts: Seq<TrackCheck>) -> nat
    decreases ts.len(),
{
    if ts.len() == 0 {
        0
    } else {
        ready_count(ts.drop_last()) + if ts.last() is Ready {
            1nat
        } else {
            0nat
        }
    }
}

pub open spec fn audio_items(a: &AudioCheck) -> Seq<PreflightItemView> {
    match a {
        AudioCheck::Unusable(e) => seq![item("audio"@, "blocker"@, "audio mix cannot be used: "@ + e@)],
        AudioCheck::Mix { tracks, muted, levels_message } => track_items(tracks@) + audio_tail(
            tracks@,
            *muted,
            levels_message@,
        ),
    }
}

/// What follows the clips of an audio mix: a pass when every clip is ready
/// or there are none, nothing otherwise.
pub open spec fn audio_tail(tracks: Seq<TrackCheck>, muted: bool, levels_message: Seq<char>) -> Seq<PreflightItemView> {
        if ready_count(
            tracks,
        ) == tracks.len() && tracks.len() > 0 {
            seq![
                item(
                    "audio"@,
                    "pass"@,
                    "audio mix and "@ + decimal(tracks.len()) + " background music clip(s) are ready"@,
                ),
            ]
        } else if tracks.len() == 0 {
            seq![
                item(
                    "audio"@,
                    "pass"@,
                    if muted {
                        "program audio will be muted"@
                    } else {
                        levels_message
                    },
                ),
            ]
        } else {
            Seq::empty()
        }
}

pub open spec fn caption_items(
    s: &VideoExportSettings,
    caption_error: Option<String>,
    visible: usize,
    hidden: usize,
) -> Seq<PreflightItemView> {
    (if s.subtitle_mode == ExportSubtitleMode::Off {
        seq![item("captions"@, "pass"@, "video export is configured without captions"@)]
    } else {
        match caption_error {
            None => seq![
                item(
                    "captions"@,
                    "pass"@,
                    decimal(visible as nat) + " visible caption line(s) are ready"@,
                ),
            ],
            Some(e) => seq![item("captions"@, "blocker"@, e@)],
        }
    }) + if hidden > 0 {
        seq![
            item(
                "hidden-captions"@,
                "warning"@,
                decimal(hidden as nat) + " hidden caption line(s) will not be exported"@,
            ),
        ]
    } else {
        Seq::empty()
    }
}

pub open spec fn encoder_items(e: &EncoderCheck) -> Seq<PreflightItemView> {
    match e {
        EncoderCheck::NotSelected => Seq::empty(),
        EncoderCheck::Available(n) => seq![item("encoder"@, "pass"@, n@ + " is available"@)],
        EncoderCheck::NotProvided(n) => seq![
            item(
                "encoder"@,
                "blocker"@,
                "FFmpeg does not provide the selected encoder `"@ + n@ + "`"@,
            ),
        ],
        EncoderCheck::Unavailable(err) => seq![
            item("encoder"@, "blocker"@, "FFmpeg is unavailable: "@ + err@),
        ],
    }
}

fn cat2(a: &str, b: &str) -> (r: String)
    ensures
        r@ == a@ + b@,
{
    let mut s = String::new();
    push_str(&mut s, a);
    push_str(&mut s, b);
    s
}

fn cat3(a: &str, b: &str, c: &str) -> (r: String)
    ensures
        r@ == a@ + b@ + c@,
{
    let mut s = cat2(a, b);
    push_str(&mut s, c);
    s
}

fn count_message(n: usize, suffix: &str) -> (r: String)
    ensures
        r@ == decimal(n as nat) + suffix@,
{
    let mut s = String::new();
    push_decimal(&mut s, n as u64);
    push_str(&mut s, suffix);
    s
}

fn push_load_item(items: &mut Vec<ExportPreflightItem>, error: &Option<String>, code: &str, prefix: &str)
    ensures
        items_view(final(items)@) == items_view(old(items)@) + load_item(*error, code@, prefix@),
{
    match error {
        Some(e) => push_export_preflight_item(items, code, "blocker", cat2(prefix, e.as_str())),
        None => {
            assert(items_view(items@) + Seq::<PreflightItemView>::empty() =~= items_view(items@));
        },
    }
}

fn push_list_items(
    items: &mut Vec<ExportPreflightItem>,
    load_error: &Option<String>,
    code: &str,
    count: usize,
    pass_suffix: &str,
    invalid: &Vec<String>,
)
    ensures
        items_view(final(items)@) == items_view(old(items)@) + list_items(
            *load_error,
            code@,
            count,
            pass_suffix@,
            invalid@,
        ),
{
    if load_error.is_some() {
        assert(items_view(items@) + Seq::<PreflightItemView>::empty() =~= items_view(items@));
        return;
    }
    if invalid.len() == 0 {
        push_export_preflight_item(items, code, "pass", count_message(count, pass_suffix));
        return;
    }
    let mut joined = String::new();
    let mut i: usize = 0;
    while i < invalid.len()
        invariant
            0 <= i <= invalid@.len(),
            invalid@.len() > 0,
            joined@ == join_with(strs(invalid@).subrange(0, i as int), "; "@),
        decreases invalid@.len() - i,
    {
        proof {
            assert(strs(invalid@).subrange(0, i + 1) =~= strs(invalid@).subrange(0, i as int).push(
                invalid@[i as int]@,
            ));
            lemma_join_with_push(strs(invalid@).subrange(0, i as int), "; "@, invalid@[i as int]@);
        }
        if i > 0 {
            push_str(&mut joined, "; ");
        }
        push_str(&mut joined, invalid[i].as_str());
        i = i + 1;
    }
    assert(strs(invalid@).subrange(0, i as int) =~= strs(invalid@));
    push_export_preflight_item(items, code, "blocker", joined);
}

fn push_audio_items(items: &mut Vec<ExportPreflightItem>, audio: &AudioCheck)
    ensures
        items_view(final(items)@) == items_view(old(items)@) + audio_items(audio),
{
    match audio {
        AudioCheck::Unusable(e) => {
            push_export_preflight_item(items, "audio", "blocker", cat2("audio mix cannot be used: ", e.as_str()));
        },
        AudioCheck::Mix { tracks, muted, levels_message } => {
            let ghost start = items_view(items@);
            let mut ready: usize = 0;
            let mut i: usize = 0;
            while i < tracks.len()
                invariant
                    0 <= i <= tracks@.len(),
                    ready == ready_count(tracks@.subrange(0, i as int)),
                    ready <= i,
                    items_view(items@) == start + track_items(tracks@.subrange(0, i as int)),
                decreases tracks@.len() - i,
            {
                let ghost before = items_view(items@);
                proof {
                    assert(tracks@.subrange(0, i + 1).drop_last() =~= tracks@.subrange(0, i as int));
                    assert(tracks@.subrange(0, i + 1).last() == tracks@[i as int]);
                }
                match &tracks[i] {
                    TrackCheck::Ready => {
                        ready = ready + 1;
                        assert(before + Seq::<PreflightItemView>::empty() =~= before);
                    },
                    TrackCheck::Missing { id, path } => {
                        push_export_preflight_item(
                            items,
                            "audio",
                            "blocker",
                            cat3(cat2("background music ", id.as_str()).as_str(), " is missing: ", path.as_str()),
                        );
                    },
                    TrackCheck::NoStream { id } => {
                        push_export_preflight_item(
                            items,
                            "audio",
                            "blocker",
                            cat3("background music ", id.as_str(), " has no decodable audio stream"),
                        );
                    },
                    TrackCheck::Undecodable { id, error } => {
                        push_export_preflight_item(
                            items,
                            "audio",
                            "blocker",
                            cat3(cat2("background music ", id.as_str()).as_str(), " cannot be decoded: ", error.as_str()),
                        );
                    },
                }
                assert(items_view(items@) =~= start + track_items(tracks@.subrange(0, i + 1)));
                i = i + 1;
            }
            assert(tracks@.subrange(0, i as int) =~= tracks@);
            let ghost mid = items_view(items@);
            if ready == tracks.len() && ready > 0 {
                let mut m = String::new();
                push_str(&mut m, "audio mix and ");
                push_decimal(&mut m, ready as u64);
                push_str(&mut m, " background music clip(s) are ready");
                push_export_preflight_item(items, "audio", "pass", m);
                assert(items_view(items@) =~= mid + seq![
                    item(
                        "audio"@,
                        "pass"@,
                        "audio mix and "@ + decimal(tracks@.len()) + " background music clip(s) are ready"@,
                    ),
                ]);
            } else if tracks.len() == 0 {
                if *muted {
                    push_export_preflight_item(items, "audio", "pass", "program audio will be muted".to_string());
                } else {
                    push_export_preflight_item(items, "audio", "pass", levels_message.clone());
                }
            } else {
                assert(mid + Seq::<PreflightItemView>::empty() =~= mid);
            }
            assert(mid == start + track_items(tracks@));
            assert(audio_items(audio) == track_items(tracks@) + audio_tail(tracks@, *muted, levels_message@));
            assert(items_view(items@) =~= mid + audio_tail(tracks@, *muted, levels_message@));
            assert(items_view(items@) =~= start + audio_items(audio));
        },
    }
}

/// The items of an export preflight report, in order: a blocker for each
/// project file that could not be read; the settings; the source media;
/// the kept timeline; the titles; the audio mix; the captions and the
/// hidden cues; the B-roll; the encoder; and the size estimate
/// (`size_message`, always a warning).
pub fn preflight_items(
    loads: &PreflightLoads,
    settings: &VideoExportSettings,
    media: &MediaCheck,
    timeline: &TimelineCheck,
    title_count: usize,
    invalid_titles: &Vec<String>,
    audio: &AudioCheck,
    caption_error: &Option<String>,
    visible: usize,
    hidden: usize,
    broll_count: usize,
    invalid_broll: &Vec<String>,
    encoder: &EncoderCheck,
    size_message: String,
) -> (r: Vec<ExportPreflightItem>)
    ensures
        items_view(r@) == load_items(loads) + settings_items(settings) + media_items(media)
            + timeline_items(timeline) + list_items(
            loads.titles_error,
            "titles"@,
            title_count,
            " title item(s) are ready"@,
            invalid_titles@,
        ) + audio_items(audio) + caption_items(settings, *caption_error, visible, hidden)
            + list_items(
            loads.broll_error,
            "broll"@,
            broll_count,
            " B-roll item(s) are available"@,
            invalid_broll@,
        ) + encoder_items(encoder) + seq![item("size-estimate"@, "warning"@, size_message@)],
{
    let mut items: Vec<ExportPreflightItem> = Vec::new();
    assert(items_view(items@) =~= Seq::<PreflightItemView>::empty());
    push_load_item(&mut items, &loads.cuts_error, "timeline-data", "timeline edits cannot be read: ");
    push_load_item(&mut items, &loads.broll_error, "broll", "B-roll placements cannot be read: ");
    push_load_item(&mut items, &loads.titles_error, "titles", "titles cannot be read: ");
    push_load_item(&mut items, &loads.hidden_error, "caption-state", "caption visibility cannot be read: ");
    push_load_item(&mut items, &loads.style_error, "style", "subtitle style cannot be read: ");
    assert(items_view(items@) =~= load_items(loads));
    let ghost s1 = items_view(items@);

    match settings.validate() {
        Err(e) => {
            let m = e.message();
            push_export_preflight_item(&mut items, "settings", "blocker", m);
        },
        Ok(_) => {
            let ext = match settings.container {
                ExportContainer::Mp4 => "MP4",
                ExportContainer::Mov => "MOV",
            };
            let codec = match settings.video_codec {
                ExportVideoCodec::H264 => "H264",
                ExportVideoCodec::Hevc => "Hevc",
                ExportVideoCodec::Prores => "Prores",
            };
            let mut m = cat3(ext, " / ", codec);
            push_str(&mut m, " settings are compatible");
            push_export_preflight_item(&mut items, "settings", "pass", m);
        },
    }
    assert(items_view(items@) =~= s1 + settings_items(settings));
    let ghost s2 = items_view(items@);

    match media {
        MediaCheck::Missing(p) => {
            push_export_preflight_item(&mut items, "media", "blocker", cat2("source media is missing: ", p.as_str()));
        },
        MediaCheck::Readable { message, duration_warning } => {
            push_export_preflight_item(&mut items, "media", "pass", message.clone());
            match duration_warning {
                Some(w) => push_export_preflight_item(&mut items, "media-duration", "warning", w.clone()),
                None => {},
            }
        },
        MediaCheck::NoStream => {
            push_export_preflight_item(
                &mut items,
                "media",
                "blocker",
                "source media has no decodable video stream or duration".to_string(),
            );
        },
        MediaCheck::Undecodable(e) => {
            push_export_preflight_item(&mut items, "media", "blocker", cat2("source media cannot be decoded: ", e.as_str()));
        },
    }
    assert(items_view(items@) =~= s2 + media_items(media));
    let ghost s3 = items_view(items@);

    match timeline {
        TimelineCheck::Empty => push_export_preflight_item(
            &mut items,
            "timeline",
            "blocker",
            "the current cuts remove the entire media timeline".to_string(),
        ),
        TimelineCheck::Kept(m) => push_export_preflight_item(&mut items, "timeline", "pass", m.clone()),
    }
    assert(items_view(items@) =~= s3 + timeline_items(timeline));
    let ghost s4 = items_view(items@);

    push_list_items(&mut items, &loads.titles_error, "titles", title_count, " title item(s) are ready", invalid_titles);
    let ghost s5 = items_view(items@);
    push_audio_items(&mut items, audio);
    let ghost s6 = items_view(items@);

    if settings.subtitle_mode == ExportSubtitleMode::Off {
        push_export_preflight_item(
            &mut items,
            "captions",
            "pass",
            "video export is configured without captions".to_string(),
        );
    } else {
        match caption_error {
            None => push_export_preflight_item(
                &mut items,
                "captions",
                "pass",
                count_message(visible, " visible caption line(s) are ready"),
            ),
            Some(e) => push_export_preflight_item(&mut items, "captions", "blocker", e.clone()),
        }
    }
    if hidden > 0 {
        push_export_preflight_item(
            &mut items,
            "hidden-captions",
            "warning",
            count_message(hidden, " hidden caption line(s) will not be exported"),
        );
    }
    assert(items_view(items@) =~= s6 + caption_items(settings, *caption_error, visible, hidden));
    let ghost s7 = items_view(items@);

    push_list_items(&mut items, &loads.broll_error, "broll", broll_count, " B-roll item(s) are available", invalid_broll);
    let ghost s8 = items_view(items@);

    match encoder {
        EncoderCheck::NotSelected => {},
        EncoderCheck::Available(n) => push_export_preflight_item(&mut items, "encoder", "pass", cat2(n.as_str(), " is available")),
        EncoderCheck::NotProvided(n) => push_export_preflight_item(
            &mut items,
            "encoder",
            "blocker",
            cat3("FFmpeg does not provide the selected encoder `", n.as_str(), "`"),
        ),
        EncoderCheck::Unavailable(err) => push_export_preflight_item(
            &mut items,
            "encoder",
            "blocker",
            cat2("FFmpeg is unavailable: ", err.as_str()),
        ),
    }
    assert(items_view(items@) =~= s8 + encoder_items(encoder));
    let ghost s9 = items_view(items@);
    push_export_preflight_item(&mut items, "size-estimate", "warning", size_message);
    assert(items_view(items@) =~= s9 + seq![item("size-estimate"@, "warning"@, size_message@)]);
    items
}

} // verus!
