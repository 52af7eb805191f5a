use cross_poster::article::Article;
use cross_poster::errors::PipelineError;
use cross_poster::sanitizer::remove_liquid_tags;
use cross_poster::sanitizer::sanitize_for_devto;
use cross_poster::sanitizer::sanitize_for_medium;
use cross_poster::sanitizer::sanitize_for_platform;
use cross_poster::sanitizer::validate_image_urls;
use cross_poster::sanitizer::Platform;

#[test]
fn test_devto_tag_validation() {
    let mut article = Article::new("Test".to_string(), "Content".to_string()).with_tags(vec![
        "tag1".to_string(),
        "tag2".to_string(),
        "tag3".to_string(),
        "tag4".to_string(),
        "tag5".to_string(),
    ]);

    let result = sanitize_for_devto(&mut article);
    assert!(result.is_err());
    assert!(result.unwrap_err().message().contains("maximum 4 tags"));
}

#[test]
fn test_devto_tag_validation_success() {
    let mut article = Article::new("Test".to_string(), "Content".to_string()).with_tags(vec![
        "tag1".to_string(),
        "tag2".to_string(),
        "tag3".to_string(),
    ]);

    let result = sanitize_for_devto(&mut article);
    assert!(result.is_ok());
}

#[test]
fn test_medium_tag_validation() {
    let mut article = Article::new("Test".to_string(), "Content".to_string()).with_tags(vec![
        "tag1".to_string(),
        "tag2".to_string(),
        "tag3".to_string(),
        "tag4".to_string(),
        "tag5".to_string(),
        "tag6".to_string(),
    ]);

    let result = sanitize_for_medium(&mut article);
    assert!(result.is_err());
    assert!(result.unwrap_err().message().contains("maximum 5 tags"));
}

#[test]
fn test_remove_liquid_tags() {
    let content = "Some content {% tweet 123456 %} more content {% github user/repo %}";
    let cleaned = remove_liquid_tags(content);
    assert_eq!(cleaned, "Some content  more content ");
}

#[test]
fn test_validate_image_urls_valid() {
    let content = "![alt](https://example.com/image.jpg)";
    let result = validate_image_urls(content);
    assert!(result.is_ok());
}

#[test]
fn test_validate_image_urls_invalid() {
    let content = "![alt](relative/path/image.jpg)";
    let result = validate_image_urls(content);
    assert!(result.is_err());
    assert!(result.unwrap_err().message().contains("must be absolute"));
}

#[test]
fn test_sanitize_for_medium_removes_liquid_tags() {
    let mut article = Article::new(
        "Test".to_string(),
        "Content {% tweet 123 %} here".to_string(),
    )
    .with_tags(vec!["tag1".to_string()]);

    sanitize_for_medium(&mut article).unwrap();
    assert_eq!(article.content, "Content  here");
}

#[test]
fn test_devto_four_tags_succeed_unchanged() {
    let mut article = Article::new("T".to_string(), "Body".to_string()).with_tags(vec![
        "a".to_string(),
        "b".to_string(),
        "c".to_string(),
        "d".to_string(),
    ]);
    let result = sanitize_for_platform(&mut article, Platform::DevTo);
    assert!(result.is_ok());
    assert_eq!(article.content, "Body");
    assert_eq!(article.tags, vec!["a", "b", "c", "d"]);
}

#[test]
fn test_devto_five_tags_fail_with_counts() {
    let mut article = Article::new("T".to_string(), "Body".to_string()).with_tags(vec![
        "a".to_string(),
        "b".to_string(),
        "c".to_string(),
        "d".to_string(),
        "e".to_string(),
    ]);
    match sanitize_for_platform(&mut article, Platform::DevTo) {
        Err(PipelineError::TooManyTags {
            destination,
            found,
            ceiling,
        }) => {
            assert_eq!(destination, Platform::DevTo);
            assert_eq!(found, 5);
            assert_eq!(ceiling, 4);
        }
        _ => panic!("expected a too-many-tags failure"),
    }
}

#[test]
fn test_medium_strip_before_url_validation() {
    let mut article = Article::new("T".to_string(), "a {% x %} b".to_string());
    sanitize_for_platform(&mut article, Platform::Medium).unwrap();
    assert_eq!(article.content, "a  b");
}

#[test]
fn test_relative_image_fails_both_destinations() {
    for platform in [Platform::DevTo, Platform::Medium] {
        let mut article =
            Article::new("T".to_string(), "![alt](relative/path.png)".to_string());
        let result = sanitize_for_platform(&mut article, platform);
        assert!(result.is_err());
        // the failed sanitization must leave the article untouched
        assert_eq!(article.content, "![alt](relative/path.png)");
    }
}

#[test]
fn test_absolute_image_passes_both_destinations() {
    for platform in [Platform::DevTo, Platform::Medium] {
        let mut article = Article::new("T".to_string(), "![alt](https://x/y.png)".to_string());
        assert!(sanitize_for_platform(&mut article, platform).is_ok());
    }
}

#[test]
fn test_invalid_image_error_carries_url_and_excerpt() {
    let mut article = Article::new(
        "T".to_string(),
        "before ![pic](img/a.png) after".to_string(),
    );
    match sanitize_for_platform(&mut article, Platform::DevTo) {
        Err(PipelineError::InvalidImageUrl { url, excerpt }) => {
            assert_eq!(url, "img/a.png");
            assert_eq!(excerpt, "![pic](img/a.png)");
        }
        _ => panic!("expected an invalid-image-url failure"),
    }
}

#[test]
fn test_liquid_tags_do_not_span_lines() {
    let content = "keep {% open\nstill here %} end";
    assert_eq!(remove_liquid_tags(content), content);
}

#[test]
fn test_unclosed_image_reference_is_ignored() {
    assert!(validate_image_urls("an ![alt](unclosed").is_ok());
}
