use lumen_cut::doc::{Doc, MediaRef, Meta, Paragraph, Sentence, Word};
use lumen_cut::commands::project_matches;
use lumen_cut::error::AppError;
use lumen_cut::subtitle::{find, hide_cue, list, restore, set_translation, translation_text, HiddenFile};

fn doc_with(sentences: Vec<(&str, &str)>) -> Doc {
    Doc {
        id: "p".into(),
        schema: 1,
        media: MediaRef {
            path: "/tmp/x.mp4".into(),
            duration_seconds: 5.0f64.to_bits(),
            sample_rate: Some(16_000),
            channels: Some(1),
        },
        meta: Meta {
            title: "t".into(),
            description: String::new(),
            language: None,
            created_at: "2024-01-01T00:00:00Z".into(),
            updated_at: "2024-01-01T00:00:00Z".into(),
        },
        paragraphs: vec![Paragraph {
            id: 1,
            speaker: Some("S1".into()),
            sentences: sentences
                .into_iter()
                .map(|(id, text)| Sentence {
                    id: id.into(),
                    text: text.into(),
                    words: vec![Word {
                        id: format!("{id}-w0"),
                        text: text.into(),
                        start: 0.0f64.to_bits(),
                        end: 1.0f64.to_bits(),
                    }],
                })
                .collect(),
        }],
        translations: Vec::new(),
    }
}

#[test]
fn list_one_row_per_sentence() {
    let d = doc_with(vec![("s1", "hello"), ("s2", "world")]);
    let rows = list(&d, &Vec::new(), None);
    assert_eq!(rows.len(), 2);
    assert_eq!(rows[0].speaker.as_deref(), Some("S1"));
}

#[test]
fn list_shows_translations_hidden_flags_and_timing() {
    let mut d = doc_with(vec![("s1", "hello"), ("s2", "world")]);
    assert!(set_translation(&mut d, "zh", "s2", "世界"));
    let rows = list(&d, &vec!["s1".to_string()], Some("zh"));
    assert_eq!(rows[0].text, "hello");
    assert!(rows[0].hidden);
    assert_eq!(rows[1].text, "世界");
    assert!(!rows[1].hidden);
    assert_eq!(f64::from_bits(rows[1].start), 0.0);
    assert_eq!(f64::from_bits(rows[1].end), 1.0);
    let plain = list(&d, &Vec::new(), Some("fr"));
    assert_eq!(plain[1].text, "world");
}

#[test]
fn set_translation_records_source_snapshot() {
    let mut d = doc_with(vec![("s1", "hello")]);
    assert!(set_translation(&mut d, "zh", "s1", "你好"));
    let track = d.translations.iter().find(|t| t.lang == "zh").unwrap();
    let saved = &track.entries.iter().find(|(k, _)| k == "s1").unwrap().1;
    assert_eq!(saved.text, "你好");
    assert_eq!(saved.source_text.as_deref(), Some("hello"));
    assert_eq!(saved.source_words, vec!["s1-w0"]);
    assert!(!set_translation(&mut d, "zh", "ghost", "不存在"));
}

#[test]
fn setting_a_translation_twice_keeps_one_entry() {
    let mut d = doc_with(vec![("s1", "hello")]);
    assert!(set_translation(&mut d, "zh", "s1", "一"));
    assert!(set_translation(&mut d, "zh", "s1", "二"));
    assert_eq!(d.translations.len(), 1);
    assert_eq!(d.translations[0].entries.len(), 1);
    assert_eq!(d.translations[0].entries[0].1.text, "二");
}

#[test]
fn find_substring_and_regex() {
    let d = doc_with(vec![("s1", "hello world"), ("s2", "goodbye world")]);
    assert_eq!(find(&d, "world", false).unwrap().len(), 2);
    assert_eq!(find(&d, "hello", false).unwrap().len(), 1);
    assert_eq!(find(&d, "^hello", true).unwrap().len(), 1);
}

#[test]
fn find_is_case_insensitive_and_reports_bad_patterns() {
    let d = doc_with(vec![("s1", "Hello World")]);
    assert_eq!(find(&d, "WORLD", false).unwrap().len(), 1);
    match find(&d, "foo(bar", true) {
        Err(AppError::Schema(m)) => assert!(m.starts_with("regex: ")),
        _ => panic!("an invalid pattern must be refused"),
    }
}

#[test]
fn hide_and_restore_round_trip() {
    let mut h = HiddenFile::default();
    assert!(hide_cue(&mut h, "s1"));
    assert!(!hide_cue(&mut h, "s1"));
    assert!(h.contains("s1"));
    assert!(restore(&mut h, "s1"));
    assert!(!restore(&mut h, "s1"));
}

#[test]
fn hidden_ids_stay_sorted_and_distinct() {
    let mut h = HiddenFile::default();
    for id in ["c", "a", "b", "a"] {
        hide_cue(&mut h, id);
    }
    assert_eq!(h.hidden, vec!["a", "b", "c"]);
    assert!(restore(&mut h, "b"));
    assert_eq!(h.hidden, vec!["a", "c"]);
}

#[test]
fn translation_text_reads_the_stored_translation() {
    let mut d = doc_with(vec![("s1", "hello")]);
    assert_eq!(translation_text(&d, "zh", "s1"), None);
    assert!(set_translation(&mut d, "zh", "s1", "你好"));
    assert_eq!(translation_text(&d, "zh", "s1").as_deref(), Some("你好"));
    assert_eq!(translation_text(&d, "fr", "s1"), None);
}

#[test]
fn project_search_looks_at_text_speakers_and_translations() {
    let mut d = doc_with(vec![("s1", "Hello World")]);
    assert!(project_matches(&d, "   "));
    assert!(project_matches(&d, " WORLD "));
    assert!(project_matches(&d, "s1"));
    assert!(!project_matches(&d, "bonjour"));
    assert!(set_translation(&mut d, "fr", "s1", "Bonjour le monde"));
    assert!(project_matches(&d, "bonjour"));
    d.paragraphs[0].speaker = Some("Alice".into());
    assert!(project_matches(&d, "alice"));
}

#[test]
fn hidden_list_order_is_checked() {
    let sorted = HiddenFile { hidden: vec!["a".into(), "b".into(), "c".into()] };
    assert!(sorted.is_sorted());
    let unsorted = HiddenFile { hidden: vec!["b".into(), "a".into()] };
    assert!(!unsorted.is_sorted());
    let repeated = HiddenFile { hidden: vec!["a".into(), "a".into()] };
    assert!(!repeated.is_sorted());
    assert!(HiddenFile::default().is_sorted());
}
