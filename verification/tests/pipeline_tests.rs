use cross_poster::args::ContentFormat;
use cross_poster::article::Article;
use cross_poster::config::Config;
use cross_poster::config::DevToConfig;
use cross_poster::config::MediumConfig;
use cross_poster::errors::PipelineError;
use cross_poster::publish::prepare_devto_publish;
use cross_poster::publish::prepare_medium_publish;
use cross_poster::publish::MediumContentFormat;
use cross_poster::publish::PublishStatus;
use cross_poster::text::usize_to_string;

fn tags(names: &[&str]) -> Vec<String> {
    names.iter().map(|n| n.to_string()).collect()
}

#[test]
fn test_decimal_rendering() {
    assert_eq!(usize_to_string(0), "0");
    assert_eq!(usize_to_string(7), "7");
    assert_eq!(usize_to_string(12345), "12345");
    assert_eq!(usize_to_string(1048576), "1048576");
}

#[test]
fn test_too_many_tags_message_counts() {
    let e = PipelineError::TooManyTags {
        destination: cross_poster::sanitizer::Platform::Medium,
        found: 6,
        ceiling: 5,
    };
    assert_eq!(e.message(), "Medium allows maximum 5 tags, found 6");
}

#[test]
fn test_config_validation_rejects_placeholders() {
    let config = Config {
        dev_to: DevToConfig {
            api_key: "your_dev_to_api_key_here".to_string(),
        },
        medium: MediumConfig {
            access_token: "token".to_string(),
        },
    };
    let e = config.validate().unwrap_err();
    assert!(e.contains("dev.to API key is not configured"));
}

#[test]
fn test_config_validation_rejects_empty_medium_token() {
    let config = Config {
        dev_to: DevToConfig {
            api_key: "k".to_string(),
        },
        medium: MediumConfig {
            access_token: String::new(),
        },
    };
    let e = config.validate().unwrap_err();
    assert!(e.contains("Medium access token is not configured"));
}

#[test]
fn test_config_validation_accepts_real_credentials() {
    let config = Config {
        dev_to: DevToConfig {
            api_key: "k123".to_string(),
        },
        medium: MediumConfig {
            access_token: "t456".to_string(),
        },
    };
    assert!(config.validate().is_ok());
}

#[test]
fn test_example_config_is_a_placeholder() {
    let config = Config::example_config();
    assert!(config.validate().is_err());
    assert_eq!(config.dev_to.api_key, "your_dev_to_api_key_here");
}

#[test]
fn test_devto_publish_truncates_tags() {
    let article = Article::new("T".to_string(), "B".to_string())
        .with_tags(tags(&["a", "b", "c", "d", "e", "f"]));
    let data = prepare_devto_publish(&article);
    assert_eq!(data.tags, vec!["a", "b", "c", "d"]);
    assert_eq!(data.title, "T");
    assert_eq!(data.body_markdown, "B");
    assert!(data.series.is_none());
}

#[test]
fn test_medium_publish_markdown_keeps_title_heading() {
    let article = Article::new("My Title".to_string(), "plain body".to_string());
    let data = prepare_medium_publish(&article, &ContentFormat::Markdown).unwrap();
    assert_eq!(data.content, "# My Title\n\nplain body");
    assert!(matches!(data.content_format, MediumContentFormat::Markdown));
    assert!(matches!(data.publish_status, PublishStatus::Public));
}

#[test]
fn test_medium_publish_draft_for_unpublished() {
    let article =
        Article::new("T".to_string(), "b".to_string()).with_published(false);
    let data = prepare_medium_publish(&article, &ContentFormat::Markdown).unwrap();
    assert!(matches!(data.publish_status, PublishStatus::Draft));
}

#[test]
fn test_medium_publish_html_converts() {
    let article = Article::new("T".to_string(), "**bold** text".to_string());
    let data = prepare_medium_publish(&article, &ContentFormat::Html).unwrap();
    assert!(matches!(data.content_format, MediumContentFormat::Html));
    assert!(data.content.contains("<strong>bold</strong>"));
}

#[test]
fn test_medium_publish_truncates_to_five_tags() {
    let article = Article::new("T".to_string(), "b".to_string())
        .with_tags(tags(&["a", "b", "c", "d", "e", "f", "g"]));
    let data = prepare_medium_publish(&article, &ContentFormat::Markdown).unwrap();
    assert_eq!(data.tags, vec!["a", "b", "c", "d", "e"]);
}

#[test]
fn test_title_conflict_error_carries_both_titles() {
    let e = PipelineError::TitleConflict {
        preamble_title: "A".to_string(),
        body_title: "B".to_string(),
    };
    let m = e.message();
    assert!(m.contains("'A'"));
    assert!(m.contains("'# B'"));
}
