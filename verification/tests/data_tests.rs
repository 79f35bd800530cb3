use lumen_cut::broll::{parse_rect, Rect};
use lumen_cut::chapter::{normalize, Chapter};
use lumen_cut::cues::{from_cues, Cue};
use lumen_cut::doc::{Doc, MediaRef, Meta, Paragraph, Sentence, Word};
use lumen_cut::caption_presets::{ass_bgr_color, css_hex_channels};
use lumen_cut::edit_history::{record_entry, redo, status, undo, EditEntry, EditHistory};
use lumen_cut::error::AppError;
use lumen_cut::modelconfig::{
    any_snapshot_ready, is_weight_file, llm_configured, snapshot_ready, ModelConfig, SnapshotFiles,
};
use lumen_cut::soft_cut::{piece_id, survivor_runs, ClipCuts, Cut, CutKind};
use lumen_cut::rebind::{lcs_anchors, rebind_plan, split_whitespace, RebindPlan};
use lumen_cut::reindex::reindex_words;
use lumen_cut::substyle::SubStyle;
use lumen_cut::title::{ass_color, ass_text};

fn sample_with_word_ids(ids: &[&str]) -> Doc {
    Doc {
        id: "p".into(),
        schema: 1,
        media: MediaRef {
            path: "/tmp/x.mp4".into(),
            duration_seconds: 0.0f64.to_bits(),
            sample_rate: None,
            channels: None,
        },
        meta: Meta {
            title: "t".into(),
            description: String::new(),
            language: None,
            created_at: "2024-01-01T00:00:00Z".into(),
            updated_at: "2024-01-01T00:00:00Z".into(),
        },
        paragraphs: vec![Paragraph {
            id: 1,
            speaker: None,
            sentences: vec![Sentence {
                id: "s1".into(),
                text: String::new(),
                words: ids
                    .iter()
                    .enumerate()
                    .map(|(i, id)| Word {
                        id: (*id).to_string(),
                        text: format!("w{i}"),
                        start: (i as f64).to_bits(),
                        end: (i as f64 + 0.1).to_bits(),
                    })
                    .collect(),
            }],
        }],
        translations: Vec::new(),
    }
}

fn words(values: &[(&str, &str, f64, f64)]) -> Vec<Word> {
    values
        .iter()
        .map(|(id, text, start, end)| Word {
            id: (*id).into(),
            text: (*text).into(),
            start: start.to_bits(),
            end: end.to_bits(),
        })
        .collect()
}

#[test]
fn rect_parser_requires_four_nonnegative_integers() {
    assert_eq!(
        parse_rect("10,20,640,360").unwrap(),
        Rect {
            x: 10,
            y: 20,
            width: 640,
            height: 360
        }
    );
    assert!(parse_rect("10,20,640").is_err());
    assert!(parse_rect("-1,20,640,360").is_err());
}

#[test]
fn defaults_name_supported_model_families() {
    let c = ModelConfig::default();
    assert_eq!(c.asr_model, "mlx-community/Qwen3-ASR-0.6B-8bit");
    assert_eq!(c.asr_aligner, "mlx-community/Qwen3-ForcedAligner-0.6B-4bit");
    assert_eq!(c.diarize_model, "pyannote/speaker-diarization-3.1");
    assert_eq!(c.worker_count, 4);
}

#[test]
fn llm_configured_requires_endpoint_and_model() {
    let mut c = ModelConfig::default();
    c.llm_model.clear();
    assert!(!llm_configured(&c));
    c.llm_endpoint = "https://x".into();
    assert!(!llm_configured(&c));
    c.llm_model = "model".into();
    assert!(llm_configured(&c));
}

#[test]
fn default_renders_valid_ass_style_line() {
    let line = SubStyle::default().ass_style_line();
    assert!(line.starts_with("Style: Default,Arial,52,"));
    assert_eq!(line.matches(',').count(), 22);
}

#[test]
fn bold_italic_flip_signatures() {
    let s = SubStyle {
        bold: true,
        italic: true,
        ..SubStyle::default()
    };
    let line = s.ass_style_line();
    assert!(line.contains(",-1,-1,"));
}

#[test]
fn ass_helpers_escape_text_and_convert_rgba() {
    assert_eq!(ass_text("A {title}\nB"), r"A \{title\}\NB");
    assert_eq!(ass_color("#12ABEF99"), "&H66EFAB12&");
}

#[test]
fn stable_when_already_w_n() {
    let d = sample_with_word_ids(&["w0", "w1", "w2"]);
    let m = reindex_words(&d);
    assert!(m.mapping.is_empty());
}

#[test]
fn renumbers_when_ids_drift() {
    let d = sample_with_word_ids(&["x9", "x20", "x21"]);
    let m = reindex_words(&d);
    let mapped: std::collections::BTreeSet<_> = m.mapping.iter().map(|(_, b)| b.clone()).collect();
    assert!(mapped.contains("w0"));
    assert!(mapped.contains("w1"));
    assert!(mapped.contains("w2"));
}

#[test]
fn undo_redo_moves_the_cursor_and_a_new_edit_truncates_redo() {
    let mut h = EditHistory::new();
    record_entry(&mut h, "e1".into(), " Edit transcript ", "t1".into());
    assert!(status(&h, true).can_undo);
    assert_eq!(status(&h, true).undo_label.as_deref(), Some("Edit transcript"));
    let undone = undo(&mut h, true).unwrap();
    assert!(undone.changed);
    assert!(status(&h, true).can_redo);
    let redone = redo(&mut h, true).unwrap();
    assert!(redone.changed);
    undo(&mut h, true).unwrap();
    let removed = record_entry(&mut h, "e2".into(), "Replacement edit", "t2".into());
    assert_eq!(removed, vec!["e1".to_string()]);
    assert!(!status(&h, true).can_redo);
    assert_eq!(
        status(&h, true).undo_label.as_deref(),
        Some("Replacement edit")
    );
}

#[test]
fn undo_refuses_to_overwrite_an_external_change() {
    let mut h = EditHistory::new();
    record_entry(&mut h, "e1".into(), "Edit", "t1".into());
    assert!(!status(&h, false).can_undo);
    match undo(&mut h, false) {
        Err(AppError::Schema(m)) => {
            assert_eq!(m, "the project changed outside the editor history; reload before undoing")
        }
        _ => panic!("undo over an external change must fail"),
    }
    assert_eq!(h.cursor, 1);
}

fn chapter(title: &str, seg: &str) -> Chapter {
    Chapter {
        title: title.into(),
        start_seg: seg.into(),
    }
}

fn three_cue_doc() -> Doc {
    let mut d = sample_with_word_ids(&["w0"]);
    d.paragraphs[0].sentences.push(Sentence {
        id: "s2".into(),
        text: "b".into(),
        words: Vec::new(),
    });
    d.paragraphs[0].sentences.push(Sentence {
        id: "s3".into(),
        text: "c".into(),
        words: Vec::new(),
    });
    d
}

fn schema_message<T>(r: Result<T, AppError>) -> String {
    match r {
        Err(AppError::Schema(m)) => m,
        _ => panic!("expected a schema error"),
    }
}

#[test]
fn chapters_are_trimmed_and_must_follow_transcript_order() {
    let d = three_cue_doc();
    let ok = normalize(&d, vec![chapter("  Intro ", "s1"), chapter("Main", "s3")]).unwrap();
    assert_eq!(ok[0].title, "Intro");
    assert_eq!(ok[1].start_seg, "s3");
    assert_eq!(
        schema_message(normalize(&d, vec![chapter("Intro", "s2")])),
        "the first chapter must start at the first cue"
    );
    assert_eq!(
        schema_message(normalize(&d, vec![chapter("A", "s1"), chapter("B", "s1")])),
        "chapter starts must be unique and follow transcript order"
    );
    assert_eq!(
        schema_message(normalize(&d, vec![chapter("A", "s1"), chapter(" ", "s2")])),
        "chapter 2 has an empty title"
    );
    assert_eq!(
        schema_message(normalize(&d, vec![chapter("A", "nope")])),
        "chapter 1 references unknown cue `nope`"
    );
    let long = "x".repeat(201);
    assert_eq!(
        schema_message(normalize(&d, vec![chapter(&long, "s1")])),
        "chapter 1 title exceeds 200 characters"
    );
}

#[test]
fn anchors_follow_a_longest_common_subsequence() {
    let a = lcs_anchors(&["there", "site", "works"], &["there", "sight", "works"]);
    assert_eq!(a, vec![(0, 0), (2, 2)]);
    let b = lcs_anchors(&["a", "b", "c", "d"], &["b", "d", "a"]);
    assert_eq!(b.len(), 2);
    assert_eq!(b, vec![(1, 0), (3, 1)]);
    assert!(lcs_anchors(&[], &["x"]).is_empty());
}

#[test]
fn latin_passthrough_plan_keeps_the_words() {
    let source = words(&[("w0", "hello", 0.0, 0.4), ("w1", "world", 0.6, 1.0)]);
    assert!(matches!(rebind_plan(&source, "hello world"), RebindPlan::Unchanged));
    assert!(matches!(rebind_plan(&source, "   "), RebindPlan::Empty));
}

#[test]
fn homophone_fix_anchors_only_unchanged_words() {
    let source = words(&[
        ("w0", "there", 0.0, 0.4),
        ("w1", "site", 0.6, 1.0),
        ("w2", "works", 1.2, 1.6),
    ]);
    match rebind_plan(&source, "there sight works") {
        RebindPlan::Tokens(t) => {
            let got: Vec<_> = t.iter().map(|t| (t.text.as_str(), t.anchor)).collect();
            assert_eq!(got, vec![("there", Some(0)), ("sight", None), ("works", Some(2))]);
        }
        _ => panic!("expected tokens"),
    }
}

#[test]
fn corrected_cjk_tail_keeps_the_unchanged_anchor() {
    let source = words(&[("w0", "你", 0.0, 0.4), ("w1", "好", 0.5, 0.9)]);
    match rebind_plan(&source, "你号") {
        RebindPlan::Tokens(t) => {
            let got: Vec<_> = t.iter().map(|t| (t.text.as_str(), t.anchor)).collect();
            assert_eq!(got, vec![("你", Some(0)), ("号", None)]);
        }
        _ => panic!("expected tokens"),
    }
    assert!(matches!(rebind_plan(&source, "你好"), RebindPlan::Unchanged));
}

#[test]
fn whitespace_splitting_drops_empty_runs() {
    assert_eq!(split_whitespace("  a  b\tc \n"), vec!["a", "b", "c"]);
    assert!(split_whitespace("   ").is_empty());
}

#[test]
fn restore_removes_by_id() {
    let mut c = ClipCuts::new();
    c.add(Cut {
        id: "c1".into(),
        note: None,
        a_word: "w0".into(),
        b_word: "w1".into(),
        kind: CutKind::Manual,
        duration: 1.0f64.to_bits(),
    });
    assert!(c.restore("c1"));
    assert!(!c.restore("c1"));
    assert!(c.cuts.is_empty());
}

#[test]
fn weight_files_need_a_weight_extension_and_a_megabyte() {
    assert!(is_weight_file("model.safetensors", 1_000_001));
    assert!(!is_weight_file("model.safetensors", 1_000_000));
    assert!(!is_weight_file("config.json", 5_000_000));
    assert!(is_weight_file("pytorch_model.bin", 2_000_000));
}

#[test]
fn cues_group_by_consecutive_speaker() {
    let cue = |id: &str, speaker: Option<&str>, translation: Option<&str>| Cue {
        id: id.into(),
        start_ms: 0,
        end_ms: 1000,
        text: format!("text {id}"),
        translation: translation.map(String::from),
        speaker: speaker.map(String::from),
        hidden: false,
    };
    let cues = vec![
        cue("a", Some("S1"), None),
        cue("b", Some("S1"), Some("")),
        cue("c", Some("S2"), Some("tr")),
        cue("d", Some("S1"), None),
    ];
    let times = vec![(0u64, 1.0f64.to_bits()); 4];
    let doc = from_cues(&cues, &times, 1.0f64.to_bits(), "2024-01-01T00:00:00Z");
    let shape: Vec<(u32, usize)> = doc.paragraphs.iter().map(|p| (p.id, p.sentences.len())).collect();
    assert_eq!(shape, vec![(1, 2), (2, 1), (3, 1)]);
    assert_eq!(doc.paragraphs[0].sentences[1].words[0].id, "b-w0");
    assert_eq!(doc.translations.len(), 1);
    assert_eq!(doc.translations[0].lang, "translated");
    assert_eq!(doc.translations[0].entries.len(), 1);
    assert_eq!(doc.translations[0].entries[0].1.source_text.as_deref(), Some("text c"));
    let two = vec![cue("a", Some("S1"), None), cue("b", None, Some(""))];
    let plain = from_cues(&two, &vec![(0u64, 0u64); 2], 0, "now");
    assert_eq!(plain.paragraphs.len(), 2);
    assert!(plain.translations.is_empty());
    assert_eq!(plain.id, "imported");
}

fn long_history(n: usize, cursor: usize) -> EditHistory {
    let mut h = EditHistory::new();
    for i in 0..n {
        h.entries.push(EditEntry { id: format!("e{i}"), label: format!("edit {i}"), at: "t".into() });
    }
    h.cursor = cursor;
    h
}

#[test]
fn a_journal_longer_than_the_bound_still_undoes_and_redoes() {
    let mut h = long_history(150, 150);
    let undone = undo(&mut h, true).unwrap();
    assert!(undone.changed);
    assert_eq!(h.cursor, 149);
    assert_eq!(undone.status.redo_label.as_deref(), Some("edit 149"));
    let redone = redo(&mut h, true).unwrap();
    assert!(redone.changed);
    assert_eq!(h.cursor, 150);
}

#[test]
fn recording_on_a_long_journal_keeps_the_newest_hundred() {
    let mut h = long_history(150, 120);
    let removed = record_entry(&mut h, "new".into(), "New", "t".into());
    assert_eq!(h.entries.len(), 100);
    assert_eq!(h.cursor, 100);
    assert_eq!(h.entries[0].id, "e21");
    assert_eq!(h.entries[99].id, "new");
    // The redo branch first, then the oldest entries.
    assert_eq!(removed.len(), 30 + 21);
    assert_eq!(removed[0], "e120");
    assert_eq!(removed[30], "e0");
}

#[test]
fn css_hex_colours_convert_to_ass_bgr() {
    let ass = |hex: &str| css_hex_channels(hex).map(|(r, g, b, a)| ass_bgr_color(r, g, b, a));
    assert_eq!(ass("ffffff").as_deref(), Some("&H00FFFFFF"));
    assert_eq!(ass("ffe34f").as_deref(), Some("&H004FE3FF"));
    assert_eq!(ass("00000080").as_deref(), Some("&H7F000000"));
    assert_eq!(ass("fa0").as_deref(), Some("&H0000AAFF"));
    assert_eq!(css_hex_channels("+f+f+f"), Some((15, 15, 15, 255)));
    assert_eq!(css_hex_channels("ggg"), None);
    assert_eq!(css_hex_channels("ffff"), None);
    assert_eq!(css_hex_channels("éfff"), None);
    assert_eq!(ass_bgr_color(1, 2, 3, 0), "&HFF030201");
}

#[test]
fn a_snapshot_counts_with_config_and_weights() {
    let weights = SnapshotFiles {
        config_sizes: vec![0, 12],
        files: vec![("config.json".into(), 12), ("model.safetensors".into(), 2_000_000)],
    };
    assert!(snapshot_ready(&weights, true));
    let pointer_only = SnapshotFiles {
        config_sizes: vec![12],
        files: vec![("model.safetensors".into(), 200)],
    };
    assert!(!snapshot_ready(&pointer_only, true));
    assert!(snapshot_ready(&pointer_only, false));
    let empty_config = SnapshotFiles { config_sizes: vec![0], files: vec![] };
    assert!(!snapshot_ready(&empty_config, false));
    assert!(any_snapshot_ready(&vec![empty_config, pointer_only], false));
    assert!(!any_snapshot_ready(&Vec::new(), false));
}

#[test]
fn surviving_words_group_into_runs() {
    assert_eq!(survivor_runs(&vec![1, 2, 3, 5, 7, 8]), vec![(1, 3), (5, 5), (7, 8)]);
    assert_eq!(survivor_runs(&vec![]), vec![]);
    assert_eq!(survivor_runs(&vec![0]), vec![(0, 0)]);
    assert_eq!(piece_id("c1", 2), "c1~2");
}

#[test]
fn ass_color_cuts_by_bytes() {
    assert_eq!(ass_color("#12ABEF"), "&H00EFAB12&");
    assert_eq!(ass_color("#é12345"), "&H003412é&");
    assert_eq!(ass_color("#12ABEF+f"), "&HF0EFAB12&");
    assert_eq!(css_hex_channels("éa"), None);
}

#[test]
fn webview_config_redacts_every_secret_but_reports_presence() {
    let mut config = lumen_cut::modelconfig::defaults();
    config.hf_token = "hf-secret".into();
    config.llm_api_key = "llm-secret".into();
    let public = lumen_cut::modelconfig::redact_model_config(config);
    assert!(public.config.hf_token.is_empty());
    assert!(public.config.llm_api_key.is_empty());
    assert!(public.hf_token_set);
    assert!(public.llm_api_key_set);
    let shown = format!("{:?}", public.config);
    assert!(!shown.contains("secret"));
}
