use lumen_cut::advance_progress;
use lumen_cut::commands::{
    after_render, default_video_export_mode, download_progress, has_preflight_item, is_audio_only,
    is_media_url, preflight_failure, project_id_arg, thumbnail_step, RenderFollowUp, RenderOutcome,
    ThumbnailStep, is_still_image, preflight_ready,
    push_export_preflight_item, recording_output, resolve_project_dir, setup_phase,
    ExportPreflightItem,
};
use lumen_cut::VERSION;
use lumen_cut::commands::path_extension;
use lumen_cut::export_settings::VideoExportSettings;
use lumen_cut::preflight::{
    preflight_items, AudioCheck, EncoderCheck, MediaCheck, PreflightLoads, TimelineCheck, TrackCheck,
};
use lumen_cut::export_settings::{default_export_settings, ExportEncodingSpeed};

#[test]
fn recording_output_rejects_path_traversal_and_blank_ids() {
    let root = "/tmp/lumen-cut-recording-test";
    for invalid in ["", " ", ".", "..", "../escape", "nested/id", r"nested\id"] {
        assert!(recording_output(invalid, root).is_err());
    }
    assert_eq!(
        recording_output("recording-20260720", root).unwrap(),
        "/tmp/lumen-cut-recording-test/recording-20260720/audio.wav"
    );
}

#[test]
fn project_dir_takes_one_trimmed_component() {
    assert_eq!(
        resolve_project_dir("  demo ", "/projects/").unwrap(),
        "/projects/demo"
    );
    assert_eq!(resolve_project_dir("demo", "").unwrap(), "demo");
    assert!(resolve_project_dir("a/b", "/projects").is_err());
    assert!(resolve_project_dir("..", "/projects").is_err());
}

#[test]
fn pipeline_progress_is_bounded_and_never_moves_backwards() {
    assert_eq!(advance_progress(45, 20), 45);
    assert_eq!(advance_progress(45, 72), 72);
    assert_eq!(advance_progress(99, 255), 100);
}

#[test]
fn version_constant_is_nonempty() {
    assert!(!VERSION.is_empty());
}

#[test]
fn setup_phases_by_job_kind() {
    assert_eq!(setup_phase("asr-runtime"), Some("installing"));
    assert_eq!(setup_phase("speaker-runtime"), Some("installing"));
    assert_eq!(setup_phase("asr-models"), Some("downloading"));
    assert_eq!(setup_phase("speaker-model"), Some("downloading"));
    assert_eq!(setup_phase("other"), None);
    assert_eq!(default_video_export_mode(), "fast");
}

#[test]
fn still_images_are_recognised_by_extension() {
    assert!(is_still_image("/tmp/shot.PNG"));
    assert!(is_still_image("a/b.jpeg"));
    assert!(!is_still_image("/tmp/clip.mov"));
    assert!(!is_still_image("/tmp/noext"));
}

#[test]
fn a_blocker_makes_the_preflight_not_ready() {
    let mut items: Vec<ExportPreflightItem> = Vec::new();
    push_export_preflight_item(&mut items, "media", "pass", "ok".to_string());
    assert!(preflight_ready(&items));
    push_export_preflight_item(&mut items, "titles", "blocker", "bad".to_string());
    assert!(!preflight_ready(&items));
    assert!(has_preflight_item(&items, Some("titles"), "blocker"));
    assert!(!has_preflight_item(&items, Some("media"), "blocker"));
    assert_eq!(items[1].message, "bad");
}

#[test]
fn transcription_request_arguments() {
    assert_eq!(project_id_arg(Some("  p1 ")).as_deref(), Some("p1"));
    assert_eq!(project_id_arg(Some("   ")), None);
    assert_eq!(project_id_arg(None), None);
    assert!(is_media_url("https://example.com/a.mp4"));
    assert!(is_media_url("http://x"));
    assert!(!is_media_url("/Users/me/a.mp4"));
    assert!(!is_media_url("ftp://x"));
}

#[test]
fn download_progress_maps_into_its_share() {
    assert_eq!(download_progress(0), 12);
    assert_eq!(download_progress(50), 17);
    assert_eq!(download_progress(100), 23);
    assert_eq!(download_progress(255), 23);
}

#[test]
fn thumbnail_decisions() {
    assert_eq!(thumbnail_step(false, true, true, true), ThumbnailStep::NoMedia);
    assert_eq!(thumbnail_step(true, true, true, true), ThumbnailStep::UseCached);
    assert_eq!(thumbnail_step(true, false, true, true), ThumbnailStep::Skip);
    assert_eq!(thumbnail_step(true, false, false, true), ThumbnailStep::Defer);
    assert_eq!(thumbnail_step(true, false, false, false), ThumbnailStep::Render);
    assert_eq!(after_render(RenderOutcome::TimedOut), RenderFollowUp::RememberAndDefer);
    assert_eq!(after_render(RenderOutcome::Failed), RenderFollowUp::ReturnError);
    assert_eq!(after_render(RenderOutcome::Rendered), RenderFollowUp::Store);
    assert!(is_audio_only("/m/voice.M4A"));
    assert!(is_audio_only("/m/a.wav"));
    assert!(!is_audio_only("/m/a.mp4"));
    assert!(!is_audio_only("/m/noext"));
}

#[test]
fn export_start_defaults_and_preflight_failure() {
    assert_eq!(default_export_settings(Some("quality")).encoding_speed, ExportEncodingSpeed::Quality);
    assert_eq!(default_export_settings(Some("fast")).encoding_speed, ExportEncodingSpeed::Fast);
    assert_eq!(default_export_settings(None).encoding_speed, ExportEncodingSpeed::Fast);
    let mut items = Vec::new();
    push_export_preflight_item(&mut items, "media", "pass", "ok".into());
    assert_eq!(preflight_failure(&items), None);
    push_export_preflight_item(&mut items, "media", "blocker", "source media is missing".into());
    push_export_preflight_item(&mut items, "timeline", "warning", "w".into());
    push_export_preflight_item(&mut items, "encoder", "blocker", "FFmpeg is unavailable".into());
    assert_eq!(
        preflight_failure(&items).as_deref(),
        Some("video export preflight failed: source media is missing; FFmpeg is unavailable")
    );
}

#[test]
fn project_dir_accepts_only_one_safe_path_component() {
    let root = "/tmp/lumen-cut-projects";
    assert_eq!(
        resolve_project_dir("project-01", root).unwrap(),
        "/tmp/lumen-cut-projects/project-01"
    );
    for invalid in ["", ".", "..", "../escape", "nested/project", r"nested\project"] {
        assert!(resolve_project_dir(invalid, root).is_err(), "{invalid:?} should be rejected");
    }
}


#[test]
fn preflight_items_follow_the_checks_in_order() {
    let loads = PreflightLoads {
        cuts_error: None,
        broll_error: Some("bad json".into()),
        titles_error: None,
        hidden_error: None,
        style_error: None,
    };
    let settings = VideoExportSettings::default();
    let items = preflight_items(
        &loads,
        &settings,
        &MediaCheck::Readable { message: "source media is readable (1920×1080, 10.0s)".into(), duration_warning: None },
        &TimelineCheck::Kept("edited duration is 9.0s".into()),
        2,
        &vec![],
        &AudioCheck::Mix {
            tracks: vec![TrackCheck::Ready, TrackCheck::NoStream { id: "m2".into() }],
            muted: false,
            levels_message: "levels".into(),
        },
        &None,
        3,
        1,
        0,
        &vec!["b1: asset is missing (x)".into()],
        &EncoderCheck::Available("libx264".into()),
        "estimated output size is 1–2 MB; actual size depends on content".into(),
    );
    let got: Vec<(&str, &str, &str)> =
        items.iter().map(|i| (i.code.as_str(), i.level.as_str(), i.message.as_str())).collect();
    assert_eq!(
        got,
        vec![
            ("broll", "blocker", "B-roll placements cannot be read: bad json"),
            ("settings", "pass", "MP4 / H264 settings are compatible"),
            ("media", "pass", "source media is readable (1920×1080, 10.0s)"),
            ("timeline", "pass", "edited duration is 9.0s"),
            ("titles", "pass", "2 title item(s) are ready"),
            ("audio", "blocker", "background music m2 has no decodable audio stream"),
            ("captions", "pass", "3 visible caption line(s) are ready"),
            ("hidden-captions", "warning", "1 hidden caption line(s) will not be exported"),
            ("encoder", "pass", "libx264 is available"),
            ("size-estimate", "warning", "estimated output size is 1–2 MB; actual size depends on content"),
        ]
    );
    assert!(!preflight_ready(&items));
}

#[test]
fn path_extension_agrees_with_std_path() {
    let cases = [
        "a.mp4", "/m/voice.M4A", "/m/noext", ".bashrc", "..", "a/..", "a/.", "a.b/", "a.b//", "./a.c",
        "/", "", ".", "..a", "a.", "x/.hidden.txt", "dir.d/file", "a.tar.gz", "/x/y/./", "é.ñ",
    ];
    for case in cases {
        let expected = std::path::Path::new(case).extension().and_then(|e| e.to_str()).map(|e| e.to_string());
        assert_eq!(path_extension(case), expected, "{case:?}");
    }
}
