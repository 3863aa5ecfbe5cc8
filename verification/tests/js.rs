use kite_lite_core::js::{eval_outcome, eval_response, page_prelude, script_result, JsError};
use kite_lite_core::{parse_html, EvalResponse, JsRuntime};

#[test]
fn evaluates_in_a_fresh_context() {
    let runtime = JsRuntime::default();
    assert_eq!(runtime.evaluate("1 + 2").unwrap(), "3");
    assert!(runtime.evaluate("typeof process").is_ok());
    assert!(runtime.evaluate("require('fs')").is_err());
    assert!(runtime.evaluate("(function f(){ return f(); })()").is_err());
}

#[test]
fn exposes_only_a_small_page_snapshot() {
    let page = parse_html("<title>Test</title><h1>Hello</h1><p>Body</p>");
    let runtime = JsRuntime::default();
    assert_eq!(
        runtime.evaluate_page(&page, "document.title").unwrap(),
        "Test"
    );
    assert_eq!(
        runtime
            .evaluate_page(&page, "document.querySelector('h1').innerText")
            .unwrap(),
        "Hello"
    );
    assert!(runtime
        .evaluate_page(&page, "fetch('https://example.com')")
        .is_err());
}

#[test]
fn scripts_share_nothing() {
    let runtime = JsRuntime::default();
    assert_eq!(runtime.evaluate("globalThis.x = 1; x").unwrap(), "1");
    assert_eq!(runtime.evaluate("typeof x").unwrap(), "undefined");
}

#[test]
fn script_length_is_limited_in_bytes() {
    let runtime = JsRuntime::default();
    assert_eq!(runtime.evaluate(&format!("1+1{}", " ".repeat(65533))).unwrap(), "2");
    assert_eq!(runtime.evaluate(&format!("'{}'.length", "ñ".repeat(32763))).unwrap(), "32763");
    let error = runtime.evaluate(&format!("'{}'.length", "ñ".repeat(32764))).unwrap_err();
    assert_eq!(error.message(), "script exceeds the 65536 byte safety limit");
    let long = " ".repeat(65537);
    assert!(matches!(runtime.evaluate(&long), Err(JsError::TooLong(65536))));
}

#[test]
fn page_snapshot_does_not_count_towards_the_limit() {
    let page = parse_html(&format!("<title>T</title><p>{}</p>", "word ".repeat(20000)));
    let runtime = JsRuntime::default();
    assert_eq!(runtime.evaluate_page(&page, "document.title").unwrap(), "T");
}

#[test]
fn code_is_the_prelude_and_the_script() {
    let runtime = JsRuntime::default();
    assert_eq!(runtime.prepare("const a = 1;", "a").unwrap(), "const a = 1;\na");
    assert_eq!(runtime.prepare("", "a").unwrap(), "\na");
}

#[test]
fn code_for_a_page_shows_the_page() {
    let page = parse_html("<title>T</title><p>One</p>");
    let runtime = JsRuntime::default();
    assert_eq!(
        runtime.prepare_page(&page, "document.title").unwrap(),
        "const document = { title: \"T\", body: { innerText: \"One\" }, querySelector: (selector) => ({ innerText: ({\"p\":\"One\"})[selector] || '' }) };\ndocument.title"
    );
    let error = runtime.prepare_page(&page, &"x".repeat(65537)).unwrap_err();
    assert!(matches!(error, JsError::TooLong(65536)));
}

#[test]
fn scripts_run_under_the_limits() {
    assert_eq!(JsRuntime::default().limits(), (256, 16384));
}

#[test]
fn prelude_shows_the_first_text_of_each_tag() {
    let page = parse_html(
        "<title>A \"q\"</title><p></p><p>One</p><p>Two</p><h4>no</h4><h2>Head</h2><a>Link</a>",
    );
    assert_eq!(
        page_prelude(&page),
        "const document = { title: \"A \\\"q\\\"\", body: { innerText: \"OneTwonoHeadLink\" }, querySelector: (selector) => ({ innerText: ({\"a\":\"Link\",\"h2\":\"Head\",\"p\":\"\"})[selector] || '' }) };"
    );
    let runtime = JsRuntime::default();
    assert_eq!(runtime.evaluate_page(&page, "document.querySelector('h4').innerText").unwrap(), "");
    assert_eq!(runtime.evaluate_page(&page, "document.body.innerText").unwrap(), "OneTwonoHeadLink");
}

#[test]
fn thrown_errors_are_named() {
    let runtime = JsRuntime::default();
    let error = runtime.evaluate("throw new Error('boom')").unwrap_err();
    assert!(error.message().starts_with("JavaScript error: "), "{}", error.message());
    assert!(error.message().contains("boom"), "{}", error.message());
    let error = runtime.evaluate("Symbol('s')").unwrap_err();
    assert!(error.message().starts_with("JavaScript conversion error: "), "{}", error.message());
}

#[test]
fn script_results_follow_their_outcomes() {
    assert_eq!(script_result(Ok(Ok("v".to_string()))).unwrap(), "v");
    assert!(matches!(script_result(Ok(Err("e".to_string()))), Err(JsError::NotText(e)) if e == "e"));
    assert!(matches!(script_result(Err("e".to_string())), Err(JsError::Thrown(e)) if e == "e"));
}

#[test]
fn responses_carry_values_and_errors() {
    let response = eval_response(Ok("1".to_string()));
    assert_eq!((response.value.as_deref(), response.error.as_deref()), (Some("1"), None));
    let response = eval_response(Err(JsError::TooLong(9)));
    assert_eq!(response.value, None);
    assert_eq!(response.error.as_deref(), Some("script exceeds the 9 byte safety limit"));
    assert_eq!(eval_outcome(eval_response(Ok("1".to_string()))), Ok("1".to_string()));
    let both = EvalResponse { value: Some("v".to_string()), error: Some("e".to_string()) };
    assert_eq!(eval_outcome(both), Ok("v".to_string()));
    let error = EvalResponse { value: None, error: Some("e".to_string()) };
    assert_eq!(eval_outcome(error), Err("e".to_string()));
    let neither = EvalResponse { value: None, error: None };
    assert_eq!(eval_outcome(neither), Err("JavaScript child returned no result".to_string()));
}

#[test]
fn query_selector_answers_for_the_first_of_a_tag() {
    let runtime = JsRuntime::default();
    let page = parse_html("<h1></h1><h1>Two</h1><p>text</p>");
    let script = "document.querySelector('h1').innerText";
    assert_eq!(runtime.evaluate_page(&page, script).unwrap(), "");
    let script = "document.querySelector('p').innerText";
    assert_eq!(runtime.evaluate_page(&page, script).unwrap(), "text");
    let script = "document.querySelector('h2').innerText";
    assert_eq!(runtime.evaluate_page(&page, script).unwrap(), "");
}

#[test]
fn texts_of_the_page_come_back_as_they_are() {
    let runtime = JsRuntime::default();
    let mut page = parse_html("");
    page.title = Some("a \"quoted\" \\ line\nbreak `${x}`".to_string());
    page.text = "'); throw 1; //".to_string();
    assert_eq!(runtime.evaluate_page(&page, "document.title").unwrap(), page.title.clone().unwrap());
    assert_eq!(runtime.evaluate_page(&page, "document.body.innerText").unwrap(), page.text);
}
