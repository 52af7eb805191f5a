use cross_poster::converter::ensure_title_in_content;
use cross_poster::converter::markdown_to_html;
use cross_poster::converter::MEDIUM_MAX_CONTENT_SIZE;

#[test]
fn test_markdown_to_html_basic() {
    let markdown = "# Hello\n\nThis is **bold** and *italic*.";
    let html = markdown_to_html(markdown).unwrap();

    assert!(html.contains("<h1>Hello</h1>"));
    assert!(html.contains("<strong>bold</strong>"));
    assert!(html.contains("<em>italic</em>"));
}

#[test]
fn converter_test_markdown_to_html_code_blocks() {
    let markdown = "```rust\nfn main() {}\n```";
    let html = markdown_to_html(markdown).unwrap();

    assert!(html.contains("<code"));
    assert!(html.contains("fn main()"));
}

#[test]
fn test_markdown_to_html_tables() {
    let markdown = "| A | B |\n|---|---|\n| 1 | 2 |";
    let html = markdown_to_html(markdown).unwrap();

    assert!(html.contains("<table>"));
    assert!(html.contains("<th>"));
    assert!(html.contains("<td>"));
}

#[test]
fn test_markdown_to_html_with_inline_html() {
    let markdown = "Regular **markdown** content";
    let html = markdown_to_html(markdown).unwrap();

    assert!(html.contains("<strong>markdown</strong>"));
}

#[test]
fn test_markdown_to_html_size_limit() {
    let huge_markdown = "a".repeat(MEDIUM_MAX_CONTENT_SIZE + 1);
    let result = markdown_to_html(&huge_markdown);

    assert!(result.is_err());
    assert!(result.unwrap_err().message().contains("too large"));
}

#[test]
fn test_ensure_title_when_missing() {
    let title = "My Article";
    let content = "This is the content.";
    let result = ensure_title_in_content(title, content);

    assert_eq!(result, "# My Article\n\nThis is the content.");
}

#[test]
fn test_ensure_title_when_present() {
    let title = "My Article";
    let content = "# My Article\n\nThis is the content.";
    let result = ensure_title_in_content(title, content);

    assert_eq!(result, content);
}

#[test]
fn test_ensure_title_with_different_heading() {
    let title = "My Article";
    let content = "## Introduction\n\nThis is the content.";
    let result = ensure_title_in_content(title, content);

    assert_eq!(
        result,
        "# My Article\n\n## Introduction\n\nThis is the content."
    );
}

#[test]
fn test_ensure_title_with_any_h1() {
    let title = "My Article";
    let content = "# Different Title\n\nContent here";
    let result = ensure_title_in_content(title, content);

    assert_eq!(result, content);
}

#[test]
fn test_ensure_title_with_whitespace() {
    let title = "My Article";
    let content = "\n\n  This is the content.";
    let result = ensure_title_in_content(title, content);

    assert!(result.starts_with("# My Article\n\n"));
}

#[test]
fn test_ensure_title_exact_prepend() {
    assert_eq!(ensure_title_in_content("X", "body"), "# X\n\nbody");
}

#[test]
fn test_ensure_title_keeps_existing_h1_verbatim() {
    assert_eq!(ensure_title_in_content("X", "# Y\n\nbody"), "# Y\n\nbody");
}

#[test]
fn test_markdown_to_html_size_error_carries_sizes() {
    let huge_markdown = "b".repeat(MEDIUM_MAX_CONTENT_SIZE + 7);
    match markdown_to_html(&huge_markdown) {
        Err(cross_poster::errors::PipelineError::ContentTooLarge {
            after_conversion,
            size,
            limit,
        }) => {
            assert!(!after_conversion);
            assert_eq!(size, MEDIUM_MAX_CONTENT_SIZE + 7);
            assert_eq!(limit, MEDIUM_MAX_CONTENT_SIZE);
        }
        _ => panic!("expected a content-too-large failure"),
    }
}

#[test]
fn test_markdown_to_html_strikethrough() {
    let html = markdown_to_html("~~gone~~").unwrap();
    assert!(html.contains("<del>gone</del>"));
}
