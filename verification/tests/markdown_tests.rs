use cross_poster::markdown::parse_markdown;

#[test]
fn test_parse_markdown_with_yaml_frontmatter() {
    let content = "---\ntitle: Test Article\ntags: [rust, testing]\ncanonical_url: https://example.com/article\npublished: true\n---\n\nThis is the article body with content.";

    let article = parse_markdown(content).unwrap();
    assert_eq!(article.title, "Test Article");
    assert_eq!(article.tags, vec!["rust", "testing"]);
    assert_eq!(
        article.canonical_url,
        Some("https://example.com/article".to_string())
    );
    assert!(article.published);
    assert!(article.content.contains("This is the article body"));
}

#[test]
fn test_parse_markdown_title_from_h1_only() {
    let content = "---\ntags: [rust]\n---\n\n# Extracted Title\n\nContent here.";

    let article = parse_markdown(content).unwrap();
    assert_eq!(article.title, "Extracted Title");
    assert_eq!(article.tags, vec!["rust"]);
}

#[test]
fn test_parse_markdown_missing_both_title_and_h1() {
    let content = "---\ntags: [rust]\n---\n\nJust content without title or H1.";

    let result = parse_markdown(content);
    assert!(result.is_err());
    assert!(result
        .unwrap_err()
        .message()
        .contains("Missing required 'title'"));
}

#[test]
fn test_parse_markdown_title_mismatch() {
    let content = "---\ntitle: Frontmatter Title\ntags: [rust]\n---\n\n# Different H1 Title\n\nContent here.";

    let result = parse_markdown(content);
    assert!(result.is_err());
    let err_msg = result.unwrap_err().message();
    assert!(err_msg.contains("Title mismatch"));
    assert!(err_msg.contains("Frontmatter Title"));
    assert!(err_msg.contains("Different H1 Title"));
}

#[test]
fn test_parse_markdown_title_match() {
    let content = "---\ntitle: Same Title\ntags: [rust]\n---\n\n# Same Title\n\nContent here.";

    let article = parse_markdown(content).unwrap();
    assert_eq!(article.title, "Same Title");
}

#[test]
fn test_parse_markdown_no_frontmatter() {
    let content = "# Just Content\n\nNo frontmatter here.";

    let result = parse_markdown(content);
    assert!(result.is_err());
}

#[test]
fn test_parse_markdown_with_optional_fields() {
    let content = "---\ntitle: Full Article\ntags: [rust, web]\ncanonical_url: https://example.com\ncover_image: https://example.com/image.jpg\ndescription: A test description\npublished: false\n---\n\nContent here.";

    let article = parse_markdown(content).unwrap();
    assert_eq!(article.title, "Full Article");
    assert_eq!(
        article.cover_image,
        Some("https://example.com/image.jpg".to_string())
    );
    assert_eq!(article.description, Some("A test description".to_string()));
    assert!(!article.published);
}

#[test]
fn test_parse_title_with_colon_unquoted_fails() {
    let content = "---\ntitle: Java Backend Coding Technology: Writing Code in the Era of AI\ntags: [AI, Java]\n---\n\nContent here.";

    let result = parse_markdown(content);
    assert!(
        result.is_err(),
        "a value with an unquoted colon must be rejected"
    );
}

#[test]
fn test_parse_title_with_colon_quoted() {
    let content = "---\ntitle: \"Java Backend Coding Technology: Writing Code in the Era of AI\"\ntags: [AI, Java, coding-technology]\npublished: true\ndescription: \"Revolutionary technology for writing deterministic, AI-friendly, high quality Java backend code.\"\n---\n\n## Introduction\n\nContent here.";

    let result = parse_markdown(content).unwrap();
    assert_eq!(
        result.title,
        "Java Backend Coding Technology: Writing Code in the Era of AI"
    );
    assert_eq!(result.tags, vec!["AI", "Java", "coding-technology"]);
}

#[test]
fn test_parse_markdown_unclosed_preamble_fails() {
    let content = "---\ntitle: Open Ended\nno closing fence follows";
    let result = parse_markdown(content);
    assert!(result.is_err());
    assert_eq!(
        result.unwrap_err().message(),
        "Failed to parse frontmatter"
    );
}

#[test]
fn test_parse_markdown_empty_preamble_fails() {
    let content = "---\n---\n\nBody only.";
    let result = parse_markdown(content);
    assert!(result.is_err());
}

#[test]
fn test_parse_markdown_bad_line_reports_syntax_error() {
    let content = "---\ntitle: Good Title\nthis line has no colon\n---\n\nBody.";
    let result = parse_markdown(content);
    assert!(result.is_err());
    assert!(result
        .unwrap_err()
        .message()
        .contains("Failed to parse frontmatter: "));
}

#[test]
fn test_parse_markdown_second_heading_ignored() {
    let content = "---\ntags: [a]\n---\n\n# First Heading\n\ntext\n\n# Second Heading\n";
    let article = parse_markdown(content).unwrap();
    assert_eq!(article.title, "First Heading");
}

#[test]
fn test_parse_markdown_empty_heading_skipped() {
    let content = "---\ntags: [a]\n---\n\n# \n\n# Real Title\n\ntext\n";
    let article = parse_markdown(content).unwrap();
    assert_eq!(article.title, "Real Title");
}

#[test]
fn test_parse_markdown_crlf_lines() {
    let content = "---\r\ntitle: Windows Doc\r\n---\r\n\r\nBody text.";
    let article = parse_markdown(content).unwrap();
    assert_eq!(article.title, "Windows Doc");
    assert!(article.content.contains("Body text."));
}

#[test]
fn test_parse_markdown_blank_title_falls_back_to_heading() {
    // a quoted empty title does not count as a title
    let content = "---\ntitle: \"\"\ntags: [a]\n---\n\n# Heading Title\n\ntext\n";
    let article = parse_markdown(content).unwrap();
    assert_eq!(article.title, "Heading Title");
}

#[test]
fn test_parse_markdown_blank_title_and_no_heading_fails() {
    let content = "---\ntitle: \"\"\ntags: [a]\n---\n\nno heading here\n";
    let result = parse_markdown(content);
    assert!(result.is_err());
    assert!(result
        .unwrap_err()
        .message()
        .contains("Missing required 'title'"));
}
