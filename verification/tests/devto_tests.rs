use cross_poster::devto::parse_devto_url;

#[test]
fn test_parse_devto_url_valid() {
    let url = "https://dev.to/username/my-awesome-article-1a2b3c";
    let result = parse_devto_url(url);
    assert!(result.is_ok());
    assert_eq!(result.unwrap(), "1a2b3c");
}

#[test]
fn test_parse_devto_url_with_trailing_slash() {
    let url = "https://dev.to/username/my-awesome-article-1a2b3c/";
    let result = parse_devto_url(url);
    assert!(result.is_ok());
    assert_eq!(result.unwrap(), "1a2b3c");
}

#[test]
fn test_parse_devto_url_invalid() {
    let url = "https://medium.com/@user/article";
    let result = parse_devto_url(url);
    assert!(result.is_err());
}

#[test]
fn test_parse_devto_url_missing_id() {
    let url = "https://dev.to/username/";
    let result = parse_devto_url(url);
    assert!(result.is_err());
}

#[test]
fn test_parse_devto_url_plain_http() {
    assert_eq!(parse_devto_url("http://dev.to/user/slug-99").unwrap(), "99");
}

#[test]
fn test_parse_devto_url_uppercase_id_rejected() {
    assert!(parse_devto_url("https://dev.to/user/slug-ABC").is_err());
}

#[test]
fn test_parse_devto_url_takes_last_dash() {
    assert_eq!(
        parse_devto_url("https://dev.to/u/a-b-c123").unwrap(),
        "c123"
    );
}

#[test]
fn test_parse_devto_url_embedded_in_text() {
    // the identifier is found even when the URL does not start the text
    assert_eq!(
        parse_devto_url("see https://dev.to/u/an-article-4f2a").unwrap(),
        "4f2a"
    );
}

#[test]
fn test_parse_devto_url_extra_path_segment_rejected() {
    assert!(parse_devto_url("https://dev.to/u/a/b-123").is_err());
}

#[test]
fn test_parse_devto_url_error_message() {
    let e = parse_devto_url("nope").unwrap_err();
    assert!(e.contains("Invalid dev.to URL format"));
}
