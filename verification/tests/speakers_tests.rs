use lumen_cut::doc::{Doc, MediaRef, Meta, Paragraph, Sentence, Word};
use lumen_cut::speakers::{cluster_names, proposed_name, proposal_invalid, proposal_stale, proposal_unchanged, assign, assign_by_cue, list, merge, normalize_label, rename, turns};

fn doc(speakers: Vec<Option<&str>>) -> Doc {
    Doc {
        id: "p".into(),
        schema: 1,
        media: MediaRef {
            path: "/tmp/x".into(),
            duration_seconds: 1.0f64.to_bits(),
            sample_rate: None,
            channels: None,
        },
        meta: Meta {
            title: "t".into(),
            description: String::new(),
            language: None,
            created_at: "2024-01-01T00:00:00Z".into(),
            updated_at: "2024-01-01T00:00:00Z".into(),
        },
        paragraphs: speakers
            .into_iter()
            .enumerate()
            .map(|(i, sp)| Paragraph {
                id: i as u32,
                speaker: sp.map(String::from),
                sentences: vec![],
            })
            .collect(),
        translations: Vec::new(),
    }
}

fn word(id: &str, text: &str, start: f64, end: f64) -> Word {
    Word {
        id: id.into(),
        text: text.into(),
        start: start.to_bits(),
        end: end.to_bits(),
    }
}

#[test]
fn list_counts_speakers() {
    let d = doc(vec![Some("S1"), Some("S1"), Some("S2"), None]);
    let info = list(&d);
    assert_eq!(
        info.iter().find(|s| s.id == "S1").unwrap().paragraph_count,
        2
    );
    assert_eq!(
        info.iter().find(|s| s.id == "S2").unwrap().paragraph_count,
        1
    );
}

#[test]
fn list_is_sorted_and_distinct() {
    let d = doc(vec![Some("b"), Some("a"), Some("c"), Some("a"), None]);
    let info = list(&d);
    let ids: Vec<_> = info.iter().map(|s| s.id.as_str()).collect();
    assert_eq!(ids, ["a", "b", "c"]);
    let counts: Vec<_> = info.iter().map(|s| s.paragraph_count).collect();
    assert_eq!(counts, [2, 1, 1]);
}

#[test]
fn rename_rewrites_speaker() {
    let mut d = doc(vec![Some("SPEAKER_00"), Some("SPEAKER_01")]);
    let n = rename(&mut d, "SPEAKER_00", "Alice");
    assert_eq!(n, 1);
    assert_eq!(d.paragraphs[0].speaker.as_deref(), Some("Alice"));
}

#[test]
fn merge_combines_speakers() {
    let mut d = doc(vec![Some("A"), Some("B"), Some("A")]);
    assert_eq!(merge(&mut d, "B", "A"), 1);
    assert!(d
        .paragraphs
        .iter()
        .all(|p| p.speaker.as_deref() == Some("A")));
    let info = list(&d);
    assert_eq!(info.len(), 1);
    assert_eq!(info[0].paragraph_count, 3);
}

#[test]
fn turns_include_reviewable_boundaries_and_text() {
    let mut d = doc(vec![Some("A")]);
    d.paragraphs[0].sentences.push(Sentence {
        id: "cue-1".into(),
        text: "Hello there".into(),
        words: vec![word("w0", "Hello", 1.0, 1.5), word("w1", "there", 1.6, 2.0)],
    });
    let t = turns(&d);
    assert_eq!(t.len(), 1);
    assert_eq!(t[0].paragraph_id, 0);
    assert_eq!(t[0].speaker.as_deref(), Some("A"));
    assert_eq!(f64::from_bits(t[0].start), 1.0);
    assert_eq!(f64::from_bits(t[0].end), 2.0);
    assert_eq!(t[0].text, "Hello there");
    assert_eq!(t[0].cue_ids, vec!["cue-1".to_string()]);
}

#[test]
fn turns_skip_paragraphs_without_words_and_join_sentences() {
    let mut d = doc(vec![None, Some("B")]);
    d.paragraphs[1].sentences.push(Sentence {
        id: "c1".into(),
        text: "One.".into(),
        words: vec![word("w0", "One.", 0.0, 0.5)],
    });
    d.paragraphs[1].sentences.push(Sentence {
        id: "c2".into(),
        text: "Two.".into(),
        words: vec![word("w1", "Two.", 0.6, 1.0)],
    });
    let t = turns(&d);
    assert_eq!(t.len(), 1);
    assert_eq!(t[0].paragraph_id, 1);
    assert_eq!(t[0].text, "One. Two.");
    assert_eq!(t[0].cue_ids, vec!["c1".to_string(), "c2".to_string()]);
}

#[test]
fn assign_sets_and_clears_one_paragraph() {
    let mut d = doc(vec![Some("A"), Some("B")]);
    assert!(assign(&mut d, 1, Some("  Host  ")));
    assert_eq!(d.paragraphs[1].speaker.as_deref(), Some("Host"));
    assert!(assign(&mut d, 1, None));
    assert_eq!(d.paragraphs[1].speaker, None);
    assert!(!assign(&mut d, 99, Some("Missing")));
}

#[test]
fn assign_by_cue_targets_owning_paragraph() {
    let mut d = doc(vec![Some("A"), Some("B")]);
    d.paragraphs[1].sentences.push(Sentence {
        id: "cue-b".into(),
        text: "Hi".into(),
        words: vec![word("w0", "Hi", 3.0, 3.5)],
    });
    assert!(assign_by_cue(&mut d, "cue-b", Some("Host")));
    assert_eq!(d.paragraphs[1].speaker.as_deref(), Some("Host"));
    assert!(!assign_by_cue(&mut d, "missing", Some("X")));
}

#[test]
fn blank_labels_clear_the_speaker() {
    assert_eq!(normalize_label(Some("   ")), None);
    assert_eq!(normalize_label(None), None);
    assert_eq!(normalize_label(Some(" Ann ")).as_deref(), Some("Ann"));
}

#[test]
fn speaker_proposal_checks() {
    assert!(proposal_invalid("  ", 1, &vec![], true));
    assert!(proposal_invalid("Ann", 1, &vec![], false));
    assert!(proposal_invalid("Ann", 1, &vec![2, 1], true));
    assert!(!proposal_invalid("Ann", 3, &vec![2, 1], true));
    assert!(proposal_unchanged(Some("Ann"), "Ann"));
    assert!(!proposal_unchanged(None, "Ann"));
    assert!(!proposal_unchanged(Some("Bob"), "Ann"));
    let d = doc(vec![Some("Ann")]);
    let p = &d.paragraphs[0];
    let text: Vec<&str> = p.sentences.iter().map(|s| s.text.as_str()).collect();
    let text = text.join(" ");
    assert!(!proposal_stale(p, Some("Ann"), &text, true));
    assert!(proposal_stale(p, Some("Bob"), &text, true));
    assert!(proposal_stale(p, Some("Ann"), &text, false));
    assert!(proposal_stale(p, Some("Ann"), "other text", true));
}

#[test]
fn fresh_clusters_keep_current_names_one_to_one() {
    let pair = |c: &str, n: &str| (c.to_string(), n.to_string());
    let ranked = vec![pair("S0", "Ann"), pair("S1", "Ann"), pair("S0", "Bob"), pair("S1", "Bob"), pair("S2", "Cy")];
    let names = cluster_names(&ranked);
    assert_eq!(names, vec![pair("S0", "Ann"), pair("S1", "Bob"), pair("S2", "Cy")]);
    assert_eq!(proposed_name(&names, "S1"), "Bob");
    assert_eq!(proposed_name(&names, "S9"), "S9");
}
