use lumen_cut::doc::{Doc, MediaRef, Meta, Paragraph, Sentence, Word};
use lumen_cut::edit::{merge_sentences, replaced_texts, split_sentence};
use lumen_cut::error::AppError;
use lumen_cut::search::replace_text;

fn mk(sid: &str, t: &str, words: Vec<&str>) -> Sentence {
    Sentence {
        id: sid.into(),
        text: t.into(),
        words: words
            .into_iter()
            .enumerate()
            .map(|(i, w)| Word {
                id: format!("{sid}-w{i}"),
                text: w.into(),
                start: (i as f64).to_bits(),
                end: (i as f64 + 0.5).to_bits(),
            })
            .collect(),
    }
}

fn doc_2s() -> Doc {
    Doc {
        id: "p".into(),
        schema: 1,
        media: MediaRef {
            path: "/tmp/x".into(),
            duration_seconds: 5.0f64.to_bits(),
            sample_rate: None,
            channels: None,
        },
        meta: Meta {
            title: "t".into(),
            description: String::new(),
            language: None,
            created_at: "2024-01-01T00:00:00Z".into(),
            updated_at: "2024-01-01T00:00:00Z".into(),
        },
        paragraphs: vec![Paragraph {
            id: 1,
            speaker: None,
            sentences: vec![
                mk("s1", "alpha beta gamma", vec!["alpha", "beta", "gamma"]),
                mk("s2", "delta epsilon", vec!["delta", "epsilon"]),
            ],
        }],
        translations: Vec::new(),
    }
}

#[test]
fn split_sentence_in_two() {
    let mut d = doc_2s();
    assert!(split_sentence(&mut d, "s1", 1));
    let p = &d.paragraphs[0];
    assert_eq!(p.sentences.len(), 3);
    assert_eq!(p.sentences[0].id, "s1");
    assert_eq!(p.sentences[1].id, "s1-b");
    assert_eq!(p.sentences[0].words.len(), 1);
    assert_eq!(p.sentences[1].words.len(), 2);
}

#[test]
fn merge_two_sentences() {
    let mut d = doc_2s();
    assert!(merge_sentences(&mut d, "s1", "s2"));
    assert_eq!(d.paragraphs[0].sentences.len(), 1);
    assert_eq!(d.paragraphs[0].sentences[0].words.len(), 5);
    assert_eq!(d.paragraphs[0].sentences[0].id, "s1");
}

#[test]
fn split_at_boundary_is_noop() {
    let mut d = doc_2s();
    assert!(!split_sentence(&mut d, "s1", 0));
    assert!(!split_sentence(&mut d, "s1", 3));
}

#[test]
fn cjk_split_and_merge_do_not_invent_spaces() {
    let mut d = doc_2s();
    d.paragraphs[0].sentences[0].text = "你好世界".into();
    d.paragraphs[0].sentences[0].words = ["你", "好", "世", "界"]
        .into_iter()
        .enumerate()
        .map(|(index, text)| Word {
            id: format!("c{index}"),
            text: text.into(),
            start: (index as f64).to_bits(),
            end: (index as f64 + 0.5).to_bits(),
        })
        .collect();
    assert!(split_sentence(&mut d, "s1", 2));
    assert_eq!(d.paragraphs[0].sentences[0].text, "你好");
    assert_eq!(d.paragraphs[0].sentences[1].text, "世界");
    assert!(merge_sentences(&mut d, "s1", "s1-b"));
    assert_eq!(d.paragraphs[0].sentences[0].text, "你好世界");
}

#[test]
fn repeated_split_uses_a_unique_sentence_id() {
    let mut d = doc_2s();
    assert!(split_sentence(&mut d, "s1", 2));
    assert!(split_sentence(&mut d, "s1", 1));
    let ids: Vec<_> = d.paragraphs[0]
        .sentences
        .iter()
        .map(|sentence| sentence.id.as_str())
        .collect();
    assert_eq!(ids, ["s1", "s1-b2", "s1-b", "s2"]);
}

#[test]
fn merge_rejects_non_adjacent_sentences() {
    let mut d = doc_2s();
    assert!(split_sentence(&mut d, "s1", 1));
    assert!(!merge_sentences(&mut d, "s1", "s2"));
}

#[test]
fn split_then_merge_restores_the_sentence() {
    let mut d = doc_2s();
    assert!(split_sentence(&mut d, "s1", 2));
    assert_eq!(d.paragraphs[0].sentences[0].text, "alpha beta");
    assert_eq!(d.paragraphs[0].sentences[1].text, "gamma");
    assert!(merge_sentences(&mut d, "s1", "s1-b"));
    let s = &d.paragraphs[0].sentences[0];
    assert_eq!(s.id, "s1");
    assert_eq!(s.text, "alpha beta gamma");
    let ids: Vec<_> = s.words.iter().map(|w| w.id.as_str()).collect();
    assert_eq!(ids, ["s1-w0", "s1-w1", "s1-w2"]);
}

#[test]
fn split_of_unknown_sentence_changes_nothing() {
    let mut d = doc_2s();
    assert!(!split_sentence(&mut d, "missing", 1));
    assert_eq!(d.paragraphs[0].sentences.len(), 2);
}

#[test]
fn find_replace_substring_and_regex() {
    let d = doc_2s();
    let changes = replaced_texts(&d, "a", "X", false).unwrap();
    assert_eq!(changes.iter().filter(|c| c.is_some()).count(), 2); // both sentences have 'a'
    assert!(changes[0].as_ref().unwrap().contains('X'));

    let d = doc_2s();
    let changes = replaced_texts(&d, r"^alpha", "ALPHA", true).unwrap();
    assert_eq!(changes.iter().filter(|c| c.is_some()).count(), 1);
    assert_eq!(changes[0].as_deref(), Some("ALPHA beta gamma"));
}

#[test]
fn replaced_texts_leaves_unchanged_cues_out() {
    let d = doc_2s();
    let changes = replaced_texts(&d, "epsilon", "EPSILON", false).unwrap();
    assert_eq!(changes, vec![None, Some("delta EPSILON".to_string())]);
    let none = replaced_texts(&d, "zzz", "y", false).unwrap();
    assert_eq!(none, vec![None, None]);
}

#[test]
fn replaced_texts_regex_expands_groups() {
    let d = doc_2s();
    let changes = replaced_texts(&d, r"(\w+) (\w+)$", "$2 $1", true).unwrap();
    assert_eq!(changes[0].as_deref(), Some("alpha gamma beta"));
    assert_eq!(changes[1].as_deref(), Some("epsilon delta"));
}

#[test]
fn replaced_texts_refuses_a_bad_regex() {
    let d = doc_2s();
    match replaced_texts(&d, "(", "x", true) {
        Err(AppError::Schema(m)) => assert!(m.starts_with("regex: ")),
        other => panic!("unexpected {other:?}"),
    }
    // Not a regex: the same text is a plain query.
    assert_eq!(replaced_texts(&d, "(", "x", false).unwrap(), vec![None, None]);
}

#[test]
fn replace_text_agrees_with_str_replace() {
    let cases = [
        ("alpha beta", "a", "X"),
        ("aaaa", "aa", "b"),
        ("aaa", "aa", "b"),
        ("abc", "", "-"),
        ("", "", "-"),
        ("", "a", "b"),
        ("héllo wörld", "ö", "o"),
        ("banana", "ana", ""),
        ("abc", "abcd", "x"),
    ];
    for (s, from, to) in cases {
        assert_eq!(replace_text(s, from, to), s.replace(from, to), "{s:?} {from:?} {to:?}");
    }
    assert_eq!(replace_text("abc", "", "-"), "-a-b-c-");
}

#[test]
fn text_edits_skip_unchanged_and_unknown_cues() {
    let d = doc_2s();
    let updates = vec![
        ("s2".to_string(), "delta zeta".to_string()),
        ("s1".to_string(), "alpha beta gamma".to_string()),
        ("zz".to_string(), "nothing".to_string()),
    ];
    let edits = lumen_cut::edit::text_edits(&d, &updates);
    assert_eq!(edits, vec![None, Some("delta zeta".to_string())]);
    let later_wins = vec![("s1".to_string(), "one".to_string()), ("s1".to_string(), "two".to_string())];
    assert_eq!(lumen_cut::edit::text_edits(&d, &later_wins), vec![Some("two".to_string()), None]);
}
