use calibre_server::config::{default_host, default_port, join_path, Config};
use calibre_server::text::{i64_to_string, parse_i64, str_eq};

fn config(base_url: Option<&str>) -> Config {
    Config {
        library_path: "/books".to_string(),
        host: "0.0.0.0".to_string(),
        port: 9080,
        base_url: base_url.map(|s| s.to_string()),
    }
}

#[test]
fn decimal_rendering() {
    assert_eq!(i64_to_string(0), "0");
    assert_eq!(i64_to_string(42), "42");
    assert_eq!(i64_to_string(-7), "-7");
    assert_eq!(i64_to_string(i64::MIN), "-9223372036854775808");
    assert_eq!(i64_to_string(i64::MAX), "9223372036854775807");
}

#[test]
fn integer_parsing() {
    assert_eq!(parse_i64("2023"), Some(2023));
    assert_eq!(parse_i64("-5"), Some(-5));
    assert_eq!(parse_i64("+7"), Some(7));
    assert_eq!(parse_i64("007"), Some(7));
    assert_eq!(parse_i64(""), None);
    assert_eq!(parse_i64("-"), None);
    assert_eq!(parse_i64("+"), None);
    assert_eq!(parse_i64("12a"), None);
    assert_eq!(parse_i64(" 12"), None);
    assert_eq!(parse_i64("9223372036854775807"), Some(i64::MAX));
    assert_eq!(parse_i64("9223372036854775808"), None);
    assert_eq!(parse_i64("-9223372036854775808"), Some(i64::MIN));
    assert_eq!(parse_i64("-9223372036854775809"), None);
    assert_eq!(parse_i64("99999999999999999999999"), None);
}

#[test]
fn parsing_agrees_with_std() {
    for s in ["1999", "-0", "+0", "--1", "1_000", "", "18446744073709551616", "-42"] {
        assert_eq!(parse_i64(s), s.parse::<i64>().ok(), "input {:?}", s);
    }
}

#[test]
fn decimal_roundtrip_on_values() {
    for n in [0i64, 1, -1, 10, 2024, -9999, i64::MIN, i64::MAX] {
        assert_eq!(parse_i64(&i64_to_string(n)), Some(n));
    }
}

#[test]
fn string_equality() {
    assert!(str_eq("epub", "epub"));
    assert!(!str_eq("epub", "EPUB"));
    assert!(!str_eq("epu", "epub"));
    assert!(str_eq("", ""));
}

#[test]
fn defaults() {
    assert_eq!(default_host(), "127.0.0.1");
    assert_eq!(default_port(), 8080);
}

#[test]
fn base_url_configured_or_built() {
    assert_eq!(config(Some("https://books.example.com/cops")).base_url(), "https://books.example.com/cops");
    assert_eq!(config(None).base_url(), "http://0.0.0.0:9080");
}

#[test]
fn url_prefix_cases() {
    assert_eq!(config(Some("https://host:9080/cops")).url_prefix(), "/cops");
    assert_eq!(config(Some("https://host:9080/cops/")).url_prefix(), "/cops");
    assert_eq!(config(Some("https://host/a/b//")).url_prefix(), "/a/b");
    assert_eq!(config(Some("http://host:8080")).url_prefix(), "");
    assert_eq!(config(Some("http://host/")).url_prefix(), "");
    assert_eq!(config(Some("host/path")).url_prefix(), "");
    assert_eq!(config(None).url_prefix(), "");
}

#[test]
fn url_prefix_shape() {
    for url in ["https://h/x", "https://h/x///", "https://h//", "ftp://a/b/c/", "x://"] {
        let p = config(Some(url)).url_prefix();
        assert!(p.is_empty() || (p.starts_with('/') && !p.ends_with('/')), "{:?}", p);
    }
}

#[test]
fn database_path() {
    assert_eq!(config(None).db_path(), "/books/metadata.db");
    let mut c = config(None);
    c.library_path = "/books/".to_string();
    assert_eq!(c.db_path(), "/books/metadata.db");
    c.library_path = String::new();
    assert_eq!(c.db_path(), "metadata.db");
}

#[test]
fn path_joining() {
    assert_eq!(join_path("/lib", "Author/Title (3)"), "/lib/Author/Title (3)");
    assert_eq!(join_path("/lib", "/abs"), "/abs");
    assert_eq!(join_path("lib/", "x"), "lib/x");
    for (a, b) in [("/lib", "x/y"), ("/lib/", "x"), ("", "x"), ("/a", "/b")] {
        let expected = std::path::Path::new(a).join(b);
        assert_eq!(join_path(a, b), expected.to_str().unwrap());
    }
}

#[test]
fn base_url_ends_with_prefix() {
    for base in [
        Some("https://host:9080/cops"),
        Some("https://host:9080/cops///"),
        Some("https://host/a/b/"),
        Some("https://host"),
        Some("no-scheme/path"),
        None,
    ] {
        let c = config(base);
        let prefix = c.url_prefix();
        assert!(c.base_url().trim_end_matches('/').ends_with(prefix.as_str()));
        if base.is_none() {
            assert_eq!(prefix, "");
        }
    }
    assert_eq!(config(Some("https://host:9080/cops///")).url_prefix(), "/cops");
}
