use cross_poster::article::Article;
use cross_poster::cleaner::clean_ai_artifacts;
use cross_poster::converter::ensure_title_in_content;
use cross_poster::converter::markdown_to_html;
use cross_poster::markdown::parse_markdown;

#[test]
fn test_markdown_parsing_basic() {
    let markdown = "---\ntitle: My Test Article\ntags: [rust, testing]\npublished: true\n---\n\nThis is a test article with **bold** and *italic* text.\n\n## Code Example\n\n```rust\nfn main() {\n    println!(\"Hello, world!\");\n}\n```\n";

    let article = parse_markdown(markdown).unwrap();

    assert_eq!(article.title, "My Test Article");
    assert_eq!(article.tags, vec!["rust", "testing"]);
    assert!(article.published);
    assert!(article.content.contains("This is a test article"));
    assert!(article.content.contains("```rust"));
}

#[test]
fn test_markdown_parsing_with_canonical_url() {
    let markdown = "---\ntitle: Article with Canonical\ntags: [web]\ncanonical_url: https://example.com/original\ncover_image: https://example.com/cover.jpg\ndescription: A great article\npublished: false\n---\n\nContent goes here.\n";

    let article = parse_markdown(markdown).unwrap();

    assert_eq!(article.title, "Article with Canonical");
    assert_eq!(
        article.canonical_url,
        Some("https://example.com/original".to_string())
    );
    assert_eq!(
        article.cover_image,
        Some("https://example.com/cover.jpg".to_string())
    );
    assert_eq!(article.description, Some("A great article".to_string()));
    assert!(!article.published);
}

#[test]
fn test_markdown_parsing_minimal_frontmatter() {
    let markdown = "---\ntitle: Minimal Article\n---\n\nJust content.\n";

    let article = parse_markdown(markdown).unwrap();

    assert_eq!(article.title, "Minimal Article");
    assert!(article.tags.is_empty());
    assert!(article.published);
    assert_eq!(article.content.trim(), "Just content.");
}

#[test]
fn test_markdown_parsing_title_from_h1() {
    let markdown = "---\ntags: [test, rust]\npublished: true\n---\n\n# Title from H1 Heading\n\nContent without frontmatter title.\n";

    let article = parse_markdown(markdown).unwrap();
    assert_eq!(article.title, "Title from H1 Heading");
    assert_eq!(article.tags, vec!["test", "rust"]);
    assert!(article.published);
}

#[test]
fn test_markdown_parsing_title_mismatch_fails() {
    let markdown =
        "---\ntitle: Frontmatter Title\ntags: [test]\n---\n\n# Different H1 Title\n\nContent here.\n";

    let result = parse_markdown(markdown);
    assert!(result.is_err());
    let err = result.unwrap_err().message();
    assert!(err.contains("Title mismatch"));
    assert!(err.contains("Frontmatter Title"));
    assert!(err.contains("Different H1 Title"));
}

#[test]
fn test_markdown_parsing_missing_title_fails() {
    let markdown = "---\ntags: [test]\n---\n\nContent without title or H1 heading.\n";

    let result = parse_markdown(markdown);
    assert!(result.is_err());
    assert!(result
        .unwrap_err()
        .message()
        .contains("Missing required 'title'"));
}

#[test]
fn test_ai_cleanup_emojis() {
    let text = "Hello \u{1F44B} World \u{1F30D}! This is \u{1F680} amazing!";
    let cleaned = clean_ai_artifacts(text);

    assert!(!cleaned.contains("\u{1F44B}"));
    assert!(!cleaned.contains("\u{1F30D}"));
    assert!(!cleaned.contains("\u{1F680}"));
    assert!(cleaned.contains("Hello"));
    assert!(cleaned.contains("World"));
    assert!(cleaned.contains("amazing"));
}

#[test]
fn test_ai_cleanup_smart_quotes() {
    let text = "\u{201C}Hello\u{201D} and \u{2018}world\u{2019}";
    let cleaned = clean_ai_artifacts(text);

    assert_eq!(cleaned, "\"Hello\" and 'world'");
}

#[test]
fn test_ai_cleanup_dashes() {
    let text = "Em dash \u{2014} and en dash \u{2013} here";
    let cleaned = clean_ai_artifacts(text);

    assert_eq!(cleaned, "Em dash -- and en dash - here");
}

#[test]
fn test_ai_cleanup_ellipsis() {
    let text = "Wait\u{2026} for it";
    let cleaned = clean_ai_artifacts(text);

    assert_eq!(cleaned, "Wait... for it");
}

#[test]
fn test_ai_cleanup_zero_width_characters() {
    let text = "Hello\u{200B}World\u{FEFF}!";
    let cleaned = clean_ai_artifacts(text);

    assert_eq!(cleaned, "HelloWorld!");
}

#[test]
fn test_ai_cleanup_comprehensive() {
    let text = "# My Article \u{1F680}\n\n\u{201C}Smart quotes\u{201D} and \u{2018}apostrophes\u{2019} everywhere \u{2014} with dashes.\n\nWait\u{2026} there's more!";

    let cleaned = clean_ai_artifacts(text);

    assert!(!cleaned.contains("\u{1F680}"));
    assert!(cleaned.contains("\"Smart quotes\""));
    assert!(cleaned.contains("'apostrophes'"));
    assert!(cleaned.contains("--"));
    assert!(cleaned.contains("..."));
}

#[test]
fn test_ai_cleanup_preserves_code_blocks() {
    let text = "Some text with code:\n\n```rust\nfn main() {\n    println!(\"Hello\");\n}\n```\n\nMore text.";

    let cleaned = clean_ai_artifacts(text);

    assert!(cleaned.contains("```rust"));
    assert!(cleaned.contains("fn main()"));
    assert!(cleaned.contains("println!"));
}

#[test]
fn test_article_builder_pattern() {
    let article = Article::new("Test".to_string(), "Content".to_string())
        .with_tags(vec!["tag1".to_string(), "tag2".to_string()])
        .with_canonical_url("https://example.com".to_string())
        .with_published(false)
        .with_cover_image("https://example.com/cover.jpg".to_string())
        .with_description("Description".to_string());

    assert_eq!(article.title, "Test");
    assert_eq!(article.content, "Content");
    assert_eq!(article.tags, vec!["tag1", "tag2"]);
    assert_eq!(
        article.canonical_url,
        Some("https://example.com".to_string())
    );
    assert!(!article.published);
    assert_eq!(
        article.cover_image,
        Some("https://example.com/cover.jpg".to_string())
    );
    assert_eq!(article.description, Some("Description".to_string()));
}

#[test]
fn test_markdown_with_complex_content() {
    let markdown = "---\ntitle: Complex Article\ntags: [rust, web, tutorial]\ncanonical_url: https://original.com/article\n---\n\nThis article covers **Rust** programming.\n\n## Installation\n\n1. Install Rust\n2. Create project\n3. Run code\n\n### Code Example\n\n```rust\nuse std::io;\n\nfn main() -> io::Result<()> {\n    println!(\"Hello!\");\n    Ok(())\n}\n```\n\n## Conclusion\n\nThat's all for now!\n";

    let article = parse_markdown(markdown).unwrap();

    assert_eq!(article.title, "Complex Article");
    assert_eq!(article.tags, vec!["rust", "web", "tutorial"]);
    assert!(article.content.contains("This article covers"));
    assert!(article.content.contains("1. Install Rust"));
    assert!(article.content.contains("```rust"));
    assert!(article.content.contains("use std::io"));
}

#[test]
fn test_markdown_empty_tags() {
    let markdown = "---\ntitle: No Tags Article\ntags: []\n---\n\nContent\n";

    let article = parse_markdown(markdown).unwrap();
    assert!(article.tags.is_empty());
}

#[test]
fn test_markdown_to_html_conversion() {
    let markdown = "# Title\n\nThis is **bold** and *italic*.";
    let html = markdown_to_html(markdown).unwrap();

    assert!(html.contains("<h1>"));
    assert!(html.contains("Title</h1>"));
    assert!(html.contains("<strong>bold</strong>"));
    assert!(html.contains("<em>italic</em>"));
}

#[test]
fn integration_tests_test_markdown_to_html_code_blocks() {
    let markdown = "```rust\nfn main() {}\n```";
    let html = markdown_to_html(markdown).unwrap();

    assert!(html.contains("<code"));
    assert!(html.contains("fn main()"));
}

#[test]
fn test_markdown_to_html_security() {
    let markdown =
        "Regular **markdown** with potential <script>alert('xss')</script> inline content";
    let html = markdown_to_html(markdown).unwrap();

    assert!(html.contains("<strong>markdown</strong>"));
}

#[test]
fn test_ensure_title_prepending() {
    let title = "My Article";
    let content_without_title = "This is the content.";
    let result = ensure_title_in_content(title, content_without_title);

    assert!(result.starts_with("# My Article\n\n"));
    assert!(result.contains("This is the content."));
}

#[test]
fn test_title_not_duplicated_when_h1_present() {
    let title = "My Article";
    let content_with_h1 = "# Different Title\n\nContent here";
    let result = ensure_title_in_content(title, content_with_h1);

    assert_eq!(result, content_with_h1);
}

#[test]
fn test_title_prepended_when_only_h2() {
    let title = "My Article";
    let content_with_h2 = "## Introduction\n\nContent";
    let result = ensure_title_in_content(title, content_with_h2);

    assert!(result.starts_with("# My Article\n\n"));
    assert!(result.contains("## Introduction"));
}
