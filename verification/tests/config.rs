use llama_capture::config::{resolve_server_url, CaptureConfig};

fn config(output: &str) -> CaptureConfig {
    CaptureConfig {
        url: "http://localhost:8080".to_string(),
        output: output.to_string(),
        api_key: "".to_string(),
        decode: false,
        pretty: false,
    }
}

#[test]
fn test_config_is_stdout() {
    let cfg = config("-");
    assert!(cfg.is_stdout());
}

#[test]
fn test_config_is_not_stdout() {
    let cfg = config("/tmp/out");
    assert!(!cfg.is_stdout());
}

#[test]
fn test_config_output_folder_stdout() {
    let cfg = config("-");
    assert!(cfg.output_folder().is_none());
}

#[test]
fn test_config_output_folder_path() {
    let cfg = config("/tmp/out");
    assert_eq!(cfg.output_folder(), Some(std::path::Path::new("/tmp/out")));
}

#[test]
fn near_misses_of_the_dash_are_folders() {
    for output in ["", "--", "- ", "-/", "\u{2010}"] {
        let cfg = config(output);
        assert!(!cfg.is_stdout());
        assert_eq!(cfg.output_folder(), Some(std::path::Path::new(output)));
    }
}

#[test]
fn test_resolve_server_url_adds_http() {
    assert_eq!(resolve_server_url("localhost:8080"), "http://localhost:8080");
}

#[test]
fn test_resolve_server_url_preserves_https() {
    assert_eq!(resolve_server_url("https://example.com"), "https://example.com");
}

#[test]
fn test_resolve_server_url_preserves_http() {
    assert_eq!(resolve_server_url("http://localhost:8080"), "http://localhost:8080");
}

#[test]
fn resolving_twice_is_resolving_once() {
    for raw in ["", "http:/", "HTTP://x", "ftp://x", "höst:80", "https://a", "http://"] {
        let once = resolve_server_url(raw);
        assert!(once.starts_with("http://") || once.starts_with("https://"));
        assert_eq!(resolve_server_url(&once), once);
    }
    assert_eq!(resolve_server_url("HTTP://x"), "http://HTTP://x");
}

#[test]
fn output_has_to_be_a_directory_or_stdout() {
    assert_eq!(config("-").check_output(false), Ok(()));
    assert_eq!(config("captures").check_output(true), Ok(()));
    assert_eq!(
        config("captures").check_output(false),
        Err("output path 'captures' is not a directory".to_string())
    );
}
