use kite_lite_core::cookies::extract_cookies;
use kite_lite_core::{parse_set_cookie, CookieInfo};

#[test]
fn parses_a_simple_cookie_with_no_attributes() {
    let cookie = parse_set_cookie("session=abc123").expect("should parse");
    assert_eq!(cookie.name, "session");
    assert_eq!(cookie.value, "abc123");
    assert!(!cookie.secure);
    assert!(!cookie.http_only);
    assert!(cookie.domain.is_none());
}

#[test]
fn parses_all_common_attributes_and_flags() {
    let cookie = parse_set_cookie(
        "session=abc123; Path=/; Domain=example.com; Secure; HttpOnly; SameSite=Lax",
    )
    .expect("should parse");
    assert_eq!(cookie.name, "session");
    assert_eq!(cookie.value, "abc123");
    assert_eq!(cookie.path.as_deref(), Some("/"));
    assert_eq!(cookie.domain.as_deref(), Some("example.com"));
    assert!(cookie.secure);
    assert!(cookie.http_only);
    assert_eq!(cookie.same_site.as_deref(), Some("Lax"));
}

#[test]
fn value_may_contain_further_equals_signs() {
    let cookie = parse_set_cookie("token=abc=def==; Path=/").expect("should parse");
    assert_eq!(cookie.name, "token");
    assert_eq!(cookie.value, "abc=def==");
}

#[test]
fn rejects_a_header_with_no_name_value_pair() {
    assert!(parse_set_cookie("").is_none());
    assert!(parse_set_cookie("justsometext").is_none());
}

#[test]
fn cookie_needs_a_name() {
    assert!(parse_set_cookie("=value").is_none());
    assert!(parse_set_cookie("  =value; Secure").is_none());
    assert!(parse_set_cookie(";a=b").is_none());
}

#[test]
fn cookie_parts_are_trimmed_and_names_ignore_case() {
    let cookie = parse_set_cookie("  a =  b  ;  PATH = /x ; SECURE;domain=; Unknown=1; Other")
        .expect("should parse");
    assert_eq!(cookie.name, "a");
    assert_eq!(cookie.value, "b");
    assert_eq!(cookie.path.as_deref(), Some("/x"));
    assert_eq!(cookie.domain.as_deref(), Some(""));
    assert!(cookie.secure);
    assert!(!cookie.http_only);
    assert!(cookie.same_site.is_none());
}

#[test]
fn later_cookie_attribute_counts() {
    let cookie = parse_set_cookie("a=b; Path=/x; Path=/y").expect("should parse");
    assert_eq!(cookie.path.as_deref(), Some("/y"));
}

#[test]
fn headers_that_set_nothing_are_passed_over() {
    let headers = vec!["a=1".to_string(), "nothing".to_string(), "b=2; Secure".to_string()];
    let cookies = extract_cookies(&headers);
    assert_eq!(cookies.len(), 2);
    assert_eq!(cookies[0].name, "a");
    assert_eq!(cookies[1].name, "b");
    assert!(cookies[1].secure);
}

fn header_of(cookie: &CookieInfo) -> String {
    let mut header = format!("{}={}", cookie.name, cookie.value);
    let values = [("Domain", &cookie.domain), ("Path", &cookie.path), ("SameSite", &cookie.same_site)];
    for (name, value) in values {
        if let Some(value) = value {
            header.push_str(&format!("; {name}={value}"));
        }
    }
    for (name, flag) in [("Secure", cookie.secure), ("HttpOnly", cookie.http_only)] {
        if flag {
            header.push_str(&format!("; {name}"));
        }
    }
    header
}

#[test]
fn cookies_are_read_back_with_their_attributes() {
    let headers = [
        "a=b",
        " a = b=c ;path= /x ; DOMAIN=d=e;secure",
        "a=;Path=; SameSite = Lax;HttpOnly;Other=1",
    ];
    for raw in headers {
        let cookie = parse_set_cookie(raw).expect("a cookie");
        let again = parse_set_cookie(&header_of(&cookie)).expect("a cookie");
        assert_eq!(format!("{again:?}"), format!("{cookie:?}"));
    }
}
