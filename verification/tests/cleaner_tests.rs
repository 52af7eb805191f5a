use cross_poster::cleaner::clean_ai_artifacts;
use cross_poster::cleaner::clean_whitespace;
use cross_poster::cleaner::remove_emojis;
use cross_poster::cleaner::replace_typography;

#[test]
fn test_remove_emojis() {
    let text = "Hello \u{1F44B} World \u{1F30D}!";
    let cleaned = remove_emojis(text);
    assert_eq!(cleaned, "Hello  World !");
}

#[test]
fn test_replace_em_dash() {
    let text = "This is an em dash \u{2014} right here.";
    let cleaned = replace_typography(text);
    assert_eq!(cleaned, "This is an em dash -- right here.");
}

#[test]
fn test_replace_en_dash() {
    let text = "Range: 1\u{2013}10";
    let cleaned = replace_typography(text);
    assert_eq!(cleaned, "Range: 1-10");
}

#[test]
fn test_replace_smart_quotes() {
    let text = "\u{201C}Hello\u{201D} and \u{2018}world\u{2019}";
    let cleaned = replace_typography(text);
    assert_eq!(cleaned, "\"Hello\" and 'world'");
}

#[test]
fn test_replace_ellipsis() {
    let text = "Wait\u{2026}";
    let cleaned = replace_typography(text);
    assert_eq!(cleaned, "Wait...");
}

#[test]
fn test_clean_zero_width_characters() {
    let text = "Hello\u{200B}World\u{FEFF}!";
    let cleaned = clean_whitespace(text);
    assert_eq!(cleaned, "HelloWorld!");
}

#[test]
fn test_clean_ai_artifacts_comprehensive() {
    let text =
        "Hello \u{1F44B} \u{2014} this is a \u{201C}test\u{201D} with \u{2018}quotes\u{2019} and \u{2026} ellipsis";
    let cleaned = clean_ai_artifacts(text);
    assert_eq!(
        cleaned,
        "Hello  -- this is a \"test\" with 'quotes' and ... ellipsis"
    );
}

#[test]
fn test_clean_ai_artifacts_preserves_normal_text() {
    let text = "Normal text without any special characters.";
    let cleaned = clean_ai_artifacts(text);
    assert_eq!(cleaned, text);
}

#[test]
fn test_clean_is_idempotent_on_mixed_text() {
    let text = "Mix \u{1F680} of \u{201C}all\u{201D} \u{2014} kinds\u{2026}\u{200B} here";
    let once = clean_ai_artifacts(text);
    let twice = clean_ai_artifacts(&once);
    assert_eq!(once, twice);
}

#[test]
fn test_clean_leaves_plain_ascii_alone() {
    let text = "# A heading\n\nwith *markdown* and `code` -- all ASCII.";
    assert_eq!(clean_ai_artifacts(text), text);
}

#[test]
fn test_clean_removes_variation_selector() {
    let text = "star \u{2B50}\u{FE0F}!";
    let cleaned = clean_ai_artifacts(text);
    assert_eq!(cleaned, "star \u{2B50}!");
}

#[test]
fn test_clean_removes_non_breaking_space() {
    let text = "a\u{00A0}b";
    assert_eq!(clean_ai_artifacts(text), "ab");
}
