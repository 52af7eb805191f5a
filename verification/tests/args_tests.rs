use cross_poster::args::ContentFormat;
use cross_poster::args::Platform;

#[test]
fn test_platform_from_str() {
    assert_eq!("devto".parse::<Platform>().unwrap(), Platform::DevTo);
    assert_eq!("dev.to".parse::<Platform>().unwrap(), Platform::DevTo);
    assert_eq!("medium".parse::<Platform>().unwrap(), Platform::Medium);
    assert_eq!("MEDIUM".parse::<Platform>().unwrap(), Platform::Medium);
    assert!("invalid".parse::<Platform>().is_err());
}

#[test]
fn test_platform_display() {
    assert_eq!(Platform::DevTo.display_name(), "dev.to");
    assert_eq!(Platform::Medium.display_name(), "Medium");
}

#[test]
fn test_content_format_from_str() {
    assert_eq!(
        "markdown".parse::<ContentFormat>().unwrap(),
        ContentFormat::Markdown
    );
    assert_eq!(
        "md".parse::<ContentFormat>().unwrap(),
        ContentFormat::Markdown
    );
    assert_eq!("html".parse::<ContentFormat>().unwrap(), ContentFormat::Html);
    assert_eq!("HTML".parse::<ContentFormat>().unwrap(), ContentFormat::Html);
    assert!("invalid".parse::<ContentFormat>().is_err());
}

#[test]
fn test_content_format_display() {
    assert_eq!(ContentFormat::Markdown.display_name(), "markdown");
    assert_eq!(ContentFormat::Html.display_name(), "html");
}

#[test]
fn test_platform_parse_error_message() {
    let e = "webflow".parse::<Platform>().unwrap_err();
    assert_eq!(e, "Unknown platform: 'webflow'. Valid options: devto, medium");
}

#[test]
fn test_format_parse_error_message() {
    let e = "pdf".parse::<ContentFormat>().unwrap_err();
    assert_eq!(e, "Unknown format: 'pdf'. Valid options: markdown, html");
}
