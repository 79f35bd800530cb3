use lumen_cut::doc::{Doc, MediaRef, Meta, Paragraph, Sentence, TranslationGroup, TranslationTrack, Word};
use lumen_cut::error::AppError;
use lumen_cut::export_settings::{
    project_caption_doc, project_caption_doc_with_hidden, ExportAspectRatio, ExportAudioCodec,
    ExportCanvasFit, ExportContainer, ExportResolution, ExportSubtitleMode, ExportVideoCodec,
    VideoExportSettings,
};

fn translated_doc() -> Doc {
    Doc {
        id: "demo".into(),
        schema: 1,
        media: MediaRef {
            path: "/tmp/source.mp4".into(),
            duration_seconds: 1.0f64.to_bits(),
            sample_rate: Some(48_000),
            channels: Some(2),
        },
        meta: Meta {
            title: "Demo".into(),
            description: String::new(),
            language: Some("en".into()),
            created_at: "2024-01-01T00:00:00Z".into(),
            updated_at: "2024-01-01T00:00:00Z".into(),
        },
        paragraphs: vec![Paragraph {
            id: 1,
            speaker: None,
            sentences: vec![Sentence {
                id: "s1".into(),
                text: "Hello world.".into(),
                words: vec![Word {
                    id: "w1".into(),
                    text: "Hello".into(),
                    start: 0.0f64.to_bits(),
                    end: 0.8f64.to_bits(),
                }],
            }],
        }],
        translations: vec![TranslationTrack {
            lang: "zh-Hans".into(),
            entries: vec![(
                "s1".into(),
                TranslationGroup {
                    id: "s1".into(),
                    text: "你好，世界。".into(),
                    source_words: vec!["w1".into()],
                    source_text: Some("Hello world.".into()),
                },
            )],
        }],
    }
}

fn same_words(a: &[Word], b: &[Word]) -> bool {
    a.len() == b.len()
        && a.iter()
            .zip(b)
            .all(|(x, y)| x.id == y.id && x.text == y.text && x.start == y.start && x.end == y.end)
}

fn message(e: AppError) -> String {
    e.message()
}

#[test]
fn defaults_are_backward_compatible_with_the_existing_mp4_export() {
    let settings = VideoExportSettings::default();
    assert_eq!(settings.extension(), "mp4");
    assert_eq!(settings.legacy_mode(), "fast");
    assert_eq!(settings.dimensions(), None);
    assert_eq!(settings.video_codec, ExportVideoCodec::H264);
    assert_eq!(settings.aspect_ratio, ExportAspectRatio::Source);
    assert_eq!(settings.canvas_fit, ExportCanvasFit::Contain);
    assert_eq!(settings.subtitle_mode, ExportSubtitleMode::Burn);
}

#[test]
fn canvas_dimensions_follow_orientation_and_quality_tier() {
    let portrait = VideoExportSettings {
        aspect_ratio: ExportAspectRatio::Portrait9x16,
        resolution: ExportResolution::FullHd1080,
        ..Default::default()
    };
    assert_eq!(
        portrait.target_dimensions(Some((1920, 1080))),
        Some((1080, 1920))
    );

    let square_at_source_quality = VideoExportSettings {
        aspect_ratio: ExportAspectRatio::Square1x1,
        ..Default::default()
    };
    assert_eq!(
        square_at_source_quality.target_dimensions(Some((3840, 2160))),
        Some((2160, 2160))
    );

    let source_portrait = VideoExportSettings {
        resolution: ExportResolution::Hd720,
        ..Default::default()
    };
    assert_eq!(
        source_portrait.target_dimensions(Some((1080, 1920))),
        Some((720, 1280))
    );
    assert_eq!(
        VideoExportSettings::default().target_dimensions(Some((1080, 1920))),
        None
    );
}

#[test]
fn incompatible_container_combinations_are_rejected() {
    assert!(VideoExportSettings {
        video_codec: ExportVideoCodec::Prores,
        ..Default::default()
    }
    .validate()
    .is_err());
    assert!(VideoExportSettings {
        audio_codec: ExportAudioCodec::Pcm,
        ..Default::default()
    }
    .validate()
    .is_err());
    assert!(VideoExportSettings {
        container: ExportContainer::Mov,
        video_codec: ExportVideoCodec::Prores,
        audio_codec: ExportAudioCodec::Pcm,
        ..Default::default()
    }
    .validate()
    .is_ok());
}

#[test]
fn caption_projection_preserves_timing_for_translation_and_bilingual_delivery() {
    let doc = translated_doc();
    let translated = project_caption_doc(&doc, Some("zh-Hans"), false).unwrap();
    assert_eq!(translated.paragraphs[0].sentences[0].text, "你好，世界。");
    assert!(same_words(
        &translated.paragraphs[0].sentences[0].words,
        &doc.paragraphs[0].sentences[0].words
    ));
    assert_eq!(translated.meta.language.as_deref(), Some("zh-Hans"));

    let bilingual = project_caption_doc(&doc, Some("zh-Hans"), true).unwrap();
    assert_eq!(
        bilingual.paragraphs[0].sentences[0].text,
        "Hello world.\n你好，世界。"
    );
}

#[test]
fn caption_projection_rejects_missing_and_stale_translation_lines() {
    let mut doc = translated_doc();
    doc.translations[0].entries[0].1.source_text = Some("Old source".into());
    let stale = message(project_caption_doc(&doc, Some("zh-Hans"), false).unwrap_err());
    assert!(stale.contains("outdated"));
    assert_eq!(
        stale,
        "translation track `zh-Hans` has 1 outdated subtitle line(s), including s1; retranslate them before exporting"
    );
    doc.translations[0].entries.clear();
    let missing = message(project_caption_doc(&doc, Some("zh-Hans"), false).unwrap_err());
    assert!(missing.contains("missing 1"));
    assert_eq!(
        missing,
        "translation track `zh-Hans` is missing 1 subtitle line(s), including s1"
    );
}

#[test]
fn hidden_captions_do_not_require_translation_and_keep_timing_words() {
    let mut doc = translated_doc();
    doc.translations.clear();
    let hidden = vec!["s1".to_string()];
    let projected = project_caption_doc_with_hidden(&doc, Some("zh-Hans"), false, &hidden).unwrap();
    assert!(projected.paragraphs[0].sentences[0].text.is_empty());
    assert!(same_words(
        &projected.paragraphs[0].sentences[0].words,
        &doc.paragraphs[0].sentences[0].words
    ));
}

#[test]
fn missing_track_and_bilingual_without_language_are_errors() {
    let mut doc = translated_doc();
    doc.translations.clear();
    assert_eq!(
        message(project_caption_doc(&doc, Some("fr"), false).unwrap_err()),
        "translation track `fr` does not exist; translate the project before exporting"
    );
    assert_eq!(
        message(project_caption_doc(&doc, None, true).unwrap_err()),
        "bilingual subtitles require a translation language"
    );
    let plain = project_caption_doc(&doc, None, false).unwrap();
    assert_eq!(plain.paragraphs[0].sentences[0].text, "Hello world.");
    assert_eq!(plain.meta.language.as_deref(), Some("en"));
}

#[test]
fn missing_lines_name_at_most_three_cues() {
    let mut doc = translated_doc();
    doc.translations[0].entries.clear();
    for id in ["s2", "s3", "s4"] {
        doc.paragraphs[0].sentences.push(Sentence {
            id: id.into(),
            text: "x".into(),
            words: vec![Word {
                id: format!("{id}-w"),
                text: "x".into(),
                start: 0.0f64.to_bits(),
                end: 0.5f64.to_bits(),
            }],
        });
    }
    assert_eq!(
        message(project_caption_doc(&doc, Some("zh-Hans"), false).unwrap_err()),
        "translation track `zh-Hans` is missing 4 subtitle line(s), including s1, s2, s3"
    );
}
