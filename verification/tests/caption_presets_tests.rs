use lumen_cut::caption_presets::{
    approx_tokens, caption_preset, caption_presets, join_words, latin_join, preset_fontname,
    without_whitespace, CaptionMode,
};
use lumen_cut::doc::Word;

fn word(text: &str) -> Word {
    Word {
        id: text.into(),
        text: text.into(),
        start: 0,
        end: 0,
    }
}

#[test]
fn preset_table_has_eighteen_entries_in_two_modes() {
    let presets = caption_presets();
    assert_eq!(presets.len(), 18);
    assert_eq!(
        presets
            .iter()
            .filter(|p| p.mode == CaptionMode::Emphasis)
            .count(),
        10
    );
    assert_eq!(
        presets
            .iter()
            .filter(|p| p.mode == CaptionMode::Line)
            .count(),
        8
    );
    assert!(caption_preset("em-yellow").is_some());
    assert!(caption_preset("no-such-preset").is_none());
}

#[test]
fn approx_tokens_split_cjk_per_char_and_latin_on_whitespace() {
    assert_eq!(approx_tokens("你好世界"), vec!["你", "好", "世", "界"]);
    assert_eq!(approx_tokens("hello world"), vec!["hello", "world"]);
    assert_eq!(approx_tokens("Hello, world"), vec!["Hello,", "world"]);
    assert_eq!(approx_tokens("你好。世界"), vec!["你", "好。", "世", "界"]);
    assert!(approx_tokens("  ").is_empty());
}

#[test]
fn tokens_rebuild_the_text_without_white_space() {
    let text = "  Hi 你好, it's ok  ";
    let tokens = approx_tokens(text);
    assert_eq!(tokens.concat(), without_whitespace(text.trim()));
    assert!(tokens.iter().all(|t| !t.is_empty()));
}

#[test]
fn presets_carry_their_looks_and_fonts() {
    let p = caption_preset("ln-red").unwrap();
    assert_eq!(p.text, "#ffffff");
    assert_eq!(p.bg, Some("rgba(255,0,0,0.85)"));
    assert_eq!(preset_fontname(&p), Some("Menlo"));
    assert_eq!(preset_fontname(&caption_preset("em-serif-black").unwrap()), Some("Songti SC"));
    assert_eq!(preset_fontname(&caption_preset("em-yellow").unwrap()), None);
    assert!(caption_preset("ln-white").unwrap().italic);
}

#[test]
fn words_join_with_spaces_only_at_latin_boundaries() {
    assert!(latin_join("Hello", "world"));
    assert!(latin_join("end.", "(next"));
    assert!(!latin_join("你好", "世界"));
    assert!(!latin_join("", "x"));
    assert_eq!(join_words(&[word("Hello"), word("world")]), "Hello world");
    assert_eq!(join_words(&[word("你好"), word("世界")]), "你好世界");
    assert_eq!(join_words(&[word("ok"), word("你")]), "ok你");
}
