use kite_lite_core::cdp::{
    attached_event, cdp_method, cdp_node, cdp_response, cdp_step, cdp_unavailable,
    evaluation_result, events_after, finish_navigation, messages_for, navigation_error,
    read_request, receive_request, CdpMethod, CdpRequest, CdpStep,
};
use kite_lite_core::json::Json;
use kite_lite_core::outer_html::{element_attribute_pairs, element_html, html_escape};
use kite_lite_core::session::{
    action_target, dispatch_key, hit_test, page_from_response, plan_action_for_node, plan_click,
    CdpSession, ClickAction,
};
use kite_lite_core::tree::{find_enclosing_form, find_node, find_selector, find_selectors, set_value};
use kite_lite_core::{
    build_webmcp_submission, compute_layout, parse_html, Element, JsRuntime, Page,
};

fn plain(json: &Json) -> serde_json::Value {
    match json {
        Json::Null => serde_json::Value::Null,
        Json::Bool(b) => serde_json::Value::from(*b),
        Json::Unsigned(n) => serde_json::Value::from(*n),
        Json::Negative(n) => serde_json::Value::from(*n),
        Json::Real(text) => serde_json::from_str(text).expect("a number"),
        Json::Str(s) => serde_json::Value::from(s.as_str()),
        Json::Array(items) => items.iter().map(plain).collect(),
        Json::Object(entries) => entries.iter().map(|(k, v)| (k.clone(), plain(v))).collect(),
    }
}

fn value(text: &str) -> serde_json::Value {
    serde_json::from_str(text).expect("JSON")
}

fn el(tag: &str, text: &str, href: Option<&str>, children: Vec<Element>) -> Element {
    Element {
        tag: tag.to_string(),
        text: text.to_string(),
        href: href.map(str::to_string),
        children,
        ..Default::default()
    }
}

#[test]
fn main_html_escape_escapes_reserved_characters() {
    assert_eq!(html_escape("<a> & \"b\""), "&lt;a&gt; &amp; &quot;b&quot;");
}

#[test]
fn html_escape_escapes_reserved_characters() {
    assert_eq!(
        html_escape("<a> & \"b\""),
        "&lt;a&gt; &amp; &quot;b&quot;"
    );
}

#[test]
fn main_element_html_includes_escaped_href_and_text() {
    let element = el("a", "Link & more", Some("/x?a=1&b=2"), Vec::new());
    assert_eq!(
        element_html(&element),
        "<a href=\"/x?a=1&amp;b=2\">Link &amp; more</a>"
    );
}

#[test]
fn main_element_html_flattens_document_children() {
    let root = el(
        "document",
        "",
        None,
        vec![
            el("p", "One", None, Vec::new()),
            el("p", "Two", None, Vec::new()),
        ],
    );
    assert_eq!(element_html(&root), "<p>One</p><p>Two</p>");
}

#[test]
fn main_cdp_node_builds_expected_json_shape() {
    let root = el(
        "document",
        "",
        None,
        vec![el("a", "Docs", Some("/docs"), Vec::new())],
    );
    let node = plain(&cdp_node(&root));
    assert_eq!(node["nodeType"], 9);
    assert_eq!(node["nodeName"], "#document");
    assert_eq!(node["childNodeCount"], 1);
    let child = &node["children"][0];
    assert_eq!(child["nodeName"], "A");
    assert_eq!(child["localName"], "a");
    assert_eq!(child["attributes"], value(r#"["href", "/docs"]"#));
}

/// Answers a request as a server would that cannot fetch anything.
fn respond(session: &mut CdpSession, id: u64, method: &str, params: Option<Json>) -> serde_json::Value {
    let request = CdpRequest {
        id: Json::Unsigned(id),
        method: method.to_string(),
        params: params.unwrap_or(Json::Null),
        session_id: None,
    };
    let result = match cdp_step(session, cdp_method(method), &request.params) {
        CdpStep::Reply(result) => result,
        CdpStep::Navigate(_) => finish_navigation(session, Err("offline".to_string())),
        CdpStep::Evaluate(script) => {
            let outcome = JsRuntime::default().evaluate_page(&session.page, &script);
            evaluation_result(outcome.map_err(|error| error.message()))
        }
    };
    plain(&cdp_response(&request, result))
}

fn test_session(page: Page) -> CdpSession {
    CdpSession::new(page)
}

#[test]
fn main_navigate_page_rejects_empty_url() {
    let mut session = test_session(parse_html("<title>T</title>"));
    let response = respond(&mut session, 1, "Page.navigate", Some(Json::object().with("url", Json::string(""))));
    assert_eq!(
        response["result"],
        value(r#"{"errorText": "no URL available for navigation"}"#)
    );
}

#[test]
fn main_cdp_response_reports_browser_version() {
    let mut session = test_session(parse_html("<title>T</title>"));
    let response = respond(&mut session, 1, "Browser.getVersion", None);
    assert_eq!(response["id"], 1);
    assert_eq!(response["result"]["product"], "KiteLite/0.1.0");
}

#[test]
fn main_cdp_response_reports_navigation_history() {
    let mut page = parse_html("<title>Example</title>");
    page.url = Some("https://example.com".to_string());
    let mut session = test_session(page);
    let response = respond(&mut session, 2, "Page.getNavigationHistory", None);
    let entry = &response["result"]["entries"][0];
    assert_eq!(entry["url"], "https://example.com");
    assert_eq!(entry["title"], "Example");
}

#[test]
fn main_cdp_response_captures_snapshot_source() {
    let mut session = test_session(parse_html("<title>Example</title>"));
    let response = respond(&mut session, 3, "Page.captureSnapshot", None);
    assert_eq!(response["result"]["data"], "<title>Example</title>");
}

#[test]
fn main_cdp_response_defaults_to_empty_result_for_unknown_method() {
    let mut session = test_session(parse_html("<title>Example</title>"));
    let response = respond(&mut session, 4, "Nonexistent.method", None);
    assert_eq!(response["result"], value("{}"));
}

#[test]
fn main_cdp_finds_selector_and_returns_matching_outer_html() {
    let mut session = test_session(parse_html("<title>T</title><body><h1>Hello</h1></body>"));
    let select = respond(
        &mut session,
        5,
        "DOM.querySelector",
        Some(Json::object().with("selector", Json::string("h1"))),
    );
    let node_id = select["result"]["nodeId"].as_u64().unwrap();
    assert!(node_id > 0);

    let outer = respond(
        &mut session,
        6,
        "DOM.getOuterHTML",
        Some(Json::object().with("nodeId", Json::Unsigned(node_id))),
    );
    assert_eq!(outer["result"]["outerHTML"], "<h1>Hello</h1>");
}

#[test]
fn main_cdp_finds_all_matching_selectors() {
    let mut session = test_session(parse_html(
        "<title>T</title><body><p>One</p><p>Two</p></body>",
    ));
    let select_all = respond(
        &mut session,
        7,
        "DOM.querySelectorAll",
        Some(Json::object().with("selector", Json::string("p"))),
    );
    let node_ids = select_all["result"]["nodeIds"].as_array().unwrap();
    assert_eq!(node_ids.len(), 2);
}

#[test]
fn target_get_targets_reports_the_one_page() {
    let mut page = parse_html("<title>Hi</title>");
    page.url = Some("https://example.com/".to_string());
    let mut session = test_session(page);
    let response = respond(&mut session, 1, "Target.getTargets", None);
    let targets = response["result"]["targetInfos"].as_array().unwrap();
    assert_eq!(targets.len(), 1);
    assert_eq!(targets[0]["type"], "page");
    assert_eq!(targets[0]["title"], "Hi");
    assert_eq!(targets[0]["url"], "https://example.com/");
}

#[test]
fn target_attach_to_target_returns_a_session_id() {
    let mut session = test_session(parse_html("<title>Hi</title>"));
    let response = respond(
        &mut session,
        2,
        "Target.attachToTarget",
        Some(Json::object().with("targetId", Json::string("kite-lite-target"))),
    );
    assert_eq!(response["result"]["sessionId"], "kite-lite-session");
}

#[test]
fn click_on_a_link_navigates() {
    let mut page = parse_html(r#"<h1>Title</h1><a href="https://example.com/x">Go</a>"#);
    compute_layout(&mut page, 8000);
    let link_id = find_selector(&page.root, "a").unwrap();
    let link = find_node(&page.root, link_id).unwrap();
    let click_y = link.layout.unwrap().y + 10;

    match plan_click(&page, click_y as i128) {
        ClickAction::Navigate(url) => assert_eq!(url, "https://example.com/x"),
        _ => panic!("expected Navigate, got a different action"),
    }
}

#[test]
fn click_on_an_input_focuses_it() {
    let mut page = parse_html(r#"<input name="q" value="hi">"#);
    compute_layout(&mut page, 8000);
    let input_id = find_selector(&page.root, "input").unwrap();
    let input = find_node(&page.root, input_id).unwrap();
    let click_y = input.layout.unwrap().y + 5;

    match plan_click(&page, click_y as i128) {
        ClickAction::Focus(focused_id) => assert_eq!(focused_id, input_id),
        _ => panic!("expected Focus"),
    }
}

#[test]
fn click_on_submit_button_collects_form_fields_and_targets_action() {
    let mut page = parse_html(
        r#"<form action="/search"><input name="q" value="rust"><button>Go</button></form>"#,
    );
    compute_layout(&mut page, 8000);
    let button_id = find_selector(&page.root, "button").unwrap();
    let button = find_node(&page.root, button_id).unwrap();
    let click_y = button.layout.unwrap().y + 10;

    match plan_click(&page, click_y as i128) {
        ClickAction::Submit { action_url, query } => {
            assert_eq!(action_url, "/search");
            assert_eq!(query, "q=rust");
        }
        _ => panic!("expected Submit"),
    }
}

#[test]
fn dispatch_key_types_into_and_backspaces_the_focused_input() {
    let mut page = parse_html(r#"<input name="q">"#);
    compute_layout(&mut page, 8000);
    let input_id = find_selector(&page.root, "input").unwrap();

    let mut session = CdpSession { page, focused_node_id: Some(input_id) };

    dispatch_key(&mut session, "char", Some("h"), None);
    dispatch_key(&mut session, "char", Some("i"), None);
    let input = find_node(&session.page.root, input_id).unwrap();
    assert_eq!(input.value.as_deref(), Some("hi"));

    dispatch_key(&mut session, "keyDown", None, Some("Backspace"));
    let input = find_node(&session.page.root, input_id).unwrap();
    assert_eq!(input.value.as_deref(), Some("h"));
}

#[test]
fn dispatch_key_without_a_focused_node_is_a_no_op() {
    let mut page = parse_html(r#"<input name="q">"#);
    compute_layout(&mut page, 8000);
    let mut session = CdpSession { page, focused_node_id: None };
    dispatch_key(&mut session, "char", Some("x"), None);
    let input_id = find_selector(&session.page.root, "input").unwrap();
    assert_eq!(find_node(&session.page.root, input_id).unwrap().value, None);
}

fn input_value(session: &CdpSession) -> Option<String> {
    let id = find_selector(&session.page.root, "input").unwrap();
    find_node(&session.page.root, id).unwrap().value.clone()
}

fn typing_session(html: &str) -> CdpSession {
    let page = parse_html(html);
    let id = find_selector(&page.root, "input").unwrap();
    CdpSession { page, focused_node_id: Some(id) }
}

#[test]
fn backspace_takes_back_what_was_typed() {
    let mut session = typing_session(r#"<p>x</p><input value="añ"><input value="other">"#);
    dispatch_key(&mut session, "char", Some("é"), None);
    assert_eq!(input_value(&session).as_deref(), Some("añé"));
    dispatch_key(&mut session, "keyDown", None, Some("Backspace"));
    assert_eq!(input_value(&session).as_deref(), Some("añ"));
    let others = find_selectors(&session.page.root, "input");
    assert_eq!(find_node(&session.page.root, others[1]).unwrap().value.as_deref(), Some("other"));
}

#[test]
fn backspace_on_an_empty_field_leaves_it_empty() {
    let mut session = typing_session("<input>");
    dispatch_key(&mut session, "keyDown", Some("x"), Some("Backspace"));
    assert_eq!(input_value(&session).as_deref(), Some(""));
}

#[test]
fn other_keys_type_nothing() {
    let mut session = typing_session("<input>");
    dispatch_key(&mut session, "keyDown", Some("x"), Some("Enter"));
    dispatch_key(&mut session, "keyUp", Some("x"), None);
    dispatch_key(&mut session, "char", None, Some("Backspace"));
    assert_eq!(input_value(&session), None);
    session.focused_node_id = Some(99);
    dispatch_key(&mut session, "char", Some("x"), None);
    assert_eq!(input_value(&session), None);
}

#[test]
fn pieces_of_typed_text_add_up() {
    let mut pieces = typing_session("<input>");
    dispatch_key(&mut pieces, "char", Some("ab"), None);
    dispatch_key(&mut pieces, "char", Some("cd"), None);
    let mut once = typing_session("<input>");
    dispatch_key(&mut once, "char", Some("abcd"), None);
    assert_eq!(input_value(&pieces), input_value(&once));
}

#[test]
fn clicks_pass_over_what_is_not_drawn() {
    let mut page = parse_html("<head><title>t</title></head><body><script></script><p>a</p></body>");
    compute_layout(&mut page, 8000);
    let p = find_selector(&page.root, "p").unwrap();
    assert_eq!(hit_test(&page.root, 160), Some(p));
    assert_eq!(hit_test(&page.root, 367), Some(p));
    assert_eq!(hit_test(&page.root, 368), None);
    assert_eq!(hit_test(&page.root, 159), None);
    assert_eq!(hit_test(&page.root, 0), None);
    assert_eq!(hit_test(&page.root, -1), None);
    assert_eq!(hit_test(&parse_html("<p>a</p>").root, 160), None);
}

fn action(html: &str, selector: &str) -> ClickAction {
    let page = parse_html(html);
    let id = find_selector(&page.root, selector).expect("the element is there");
    plan_action_for_node(&page, id)
}

#[test]
fn clicks_do_what_the_element_is_for() {
    assert!(matches!(action("<a>x</a>", "a"), ClickAction::Nothing));
    assert!(matches!(action("<p>x</p>", "p"), ClickAction::Nothing));
    assert!(matches!(action("<button>x</button>", "button"), ClickAction::Nothing));
    assert!(matches!(action("<textarea></textarea>", "textarea"), ClickAction::Focus(_)));
    assert!(matches!(action("<input type=checkbox>", "input"), ClickAction::Focus(_)));
    match action(
        "<form action=/out><form action=/in><div><input name=a value=1><textarea name=b>2</textarea><input value=3><select name=c></select><input type=submit name=d></div></form></form>",
        "input",
    ) {
        ClickAction::Focus(_) => {}
        _ => panic!("expected Focus"),
    }
    match action("<form action=/s><input type=submit name=d value=go><input name=a></form>", "input") {
        ClickAction::Submit { action_url, query } => {
            assert_eq!((action_url.as_str(), query.as_str()), ("/s", "d=go&a="));
        }
        _ => panic!("expected Submit"),
    }
    assert!(matches!(plan_action_for_node(&parse_html(""), 99), ClickAction::Nothing));
}

#[test]
fn submission_without_action_goes_to_the_page_itself() {
    let mut page = parse_html("<form><input name=q value='a b'><button>Go</button></form>");
    page.url = Some("https://example.com/?p=1".to_string());
    let id = find_selector(&page.root, "button").unwrap();
    let planned = plan_action_for_node(&page, id);
    assert_eq!(action_target(&planned).as_deref(), Some("https://example.com/?p=1&q=a+b"));
    assert_eq!(action_target(&ClickAction::Nothing), None);
    assert_eq!(action_target(&ClickAction::Focus(1)), None);
    assert_eq!(action_target(&ClickAction::Navigate("/x".to_string())).as_deref(), Some("/x"));
}

#[test]
fn clicks_in_a_box_hit_its_element() {
    let mut page = parse_html(
        "<h1>Title</h1><form><input name=q><button>Go</button></form><ul><li>one<li>two</ul><p>end</p>",
    );
    compute_layout(&mut page, 8000);
    for tag in ["h1", "button", "li", "p"] {
        for id in find_selectors(&page.root, tag) {
            let layout = find_node(&page.root, id).unwrap().layout.unwrap();
            for y in [layout.y + 10, layout.y + layout.height - 1] {
                assert_eq!(hit_test(&page.root, y as i128), Some(id), "{tag} at {y}");
            }
        }
    }
    // A field without text has no height: it takes the first pixel of what
    // follows it.
    let button = find_selectors(&page.root, "button")[0];
    let top = find_node(&page.root, button).unwrap().layout.unwrap().y;
    assert_eq!(hit_test(&page.root, top as i128), find_selector(&page.root, "input"));
}

#[test]
fn calling_a_tool_without_arguments_is_submitting_its_form() {
    let mut page = parse_html(
        "<form toolname=t action='/s?x=1'><input name=a value='1 2'><textarea name=b>c</textarea><button>Go</button></form>",
    );
    page.url = Some("https://example.com/".to_string());
    let button = find_selector(&page.root, "button").unwrap();
    match plan_action_for_node(&page, button) {
        ClickAction::Submit { action_url, query } => {
            let call = build_webmcp_submission(&page, "t", &Json::object().with("z", Json::Null));
            assert_eq!(call, Some((action_url, query)));
        }
        _ => panic!("expected Submit"),
    }
}

#[test]
fn escaped_texts_differ_where_the_texts_do() {
    let texts = ["", "&", "&amp;", "<", "&lt;", ">", "\"", "&quot;", "a&b", "a<b"];
    for a in texts {
        for b in texts {
            assert_eq!(html_escape(a) == html_escape(b), a == b);
        }
    }
}

#[test]
fn selectors_name_tags_without_case() {
    let root = parse_html("<title>T</title><body><p>One</p><div><p>Two</p></div></body>").root;
    // document, html, head, body, p, div, p
    assert_eq!(find_selector(&root, "P"), Some(5));
    assert_eq!(find_selectors(&root, "p"), vec![5, 7]);
    assert_eq!(find_selector(&root, "*"), Some(2));
    assert_eq!(find_selectors(&root, "*"), vec![2, 3, 4, 5, 6, 7]);
    assert_eq!(find_selector(&root, "document"), None);
    assert_eq!(find_selector(&root, "video"), None);
    assert_eq!(find_node(&root, 7).unwrap().text, "Two");
    assert_eq!(find_node(&root, 1).unwrap().tag, "document");
    assert!(find_node(&root, 0).is_none());
    assert!(find_node(&root, 8).is_none());
}

#[test]
fn closest_form_is_found() {
    let inner = el("form", "", Some("/in"), vec![el("div", "", None, vec![el("b", "", None, vec![])])]);
    let root = el("form", "", Some("/out"), vec![inner, el("i", "", None, vec![])]);
    // form 1, form 2, div 3, b 4, i 5
    assert_eq!(find_enclosing_form(&root, 4).unwrap().href.as_deref(), Some("/in"));
    assert_eq!(find_enclosing_form(&root, 2).unwrap().href.as_deref(), Some("/in"));
    assert_eq!(find_enclosing_form(&root, 5).unwrap().href.as_deref(), Some("/out"));
    assert!(find_enclosing_form(&root, 6).is_none());
    assert!(find_enclosing_form(&root, 0).is_none());
    assert!(find_enclosing_form(&el("p", "", None, vec![]), 1).is_none());
}

#[test]
fn setting_a_value_touches_one_element() {
    let mut root = el("div", "", None, vec![
        el("p", "", None, vec![el("input", "", None, vec![])]),
        el("input", "", None, vec![]),
    ]);
    set_value(&mut root, 2, "x".to_string());
    set_value(&mut root, 3, "y".to_string());
    set_value(&mut root, 2, "z".to_string());
    assert_eq!(root.children[0].children[0].value.as_deref(), Some("z"));
    assert_eq!(root.children[1].value.as_deref(), Some("y"));
    assert_eq!(root.value, None);
    assert_eq!(root.children[0].value, None);
}

#[test]
fn box_model_gives_corners_and_size() {
    let mut page = parse_html("<h1>Title</h1>");
    compute_layout(&mut page, 8000);
    let mut session = test_session(page);
    let params = Json::object().with("nodeId", Json::Unsigned(5));
    let response = respond(&mut session, 1, "DOM.getBoxModel", Some(params));
    assert_eq!(
        response["result"],
        value(r#"{"model":{"content":[0.0,24.0,800.0,24.0,800.0,65.6,0.0,65.6],"width":800.0,"height":41.6}}"#)
    );
    let none = respond(&mut session, 1, "DOM.getBoxModel", None);
    assert_eq!(none["result"], value("{}"));
}

#[test]
fn node_ids_are_taken_by_their_lower_bits() {
    let mut session = test_session(parse_html("<p>x</p>"));
    let params = Json::object().with("nodeId", Json::Unsigned((1 << 32) + 5));
    let response = respond(&mut session, 1, "DOM.getOuterHTML", Some(params));
    assert_eq!(response["result"]["outerHTML"], "<p>x</p>");
    let params = Json::object().with("nodeId", Json::Negative(-5));
    let response = respond(&mut session, 1, "DOM.getOuterHTML", Some(params));
    assert_eq!(response["result"]["outerHTML"], "");
}

#[test]
fn attributes_are_listed_in_pairs() {
    let page = parse_html("<form action='/a'><input name=n type=text value='<v>'></form>");
    let form = find_node(&page.root, find_selector(&page.root, "form").unwrap()).unwrap();
    assert_eq!(element_attribute_pairs(form), vec!["action", "/a"]);
    assert_eq!(
        element_html(form),
        "<form action=\"/a\"><input value=\"&lt;v&gt;\" name=\"n\" type=\"text\"></input></form>"
    );
    let mut session = test_session(page.clone());
    let id = find_selector(&page.root, "input").unwrap() as u64;
    let response = respond(&mut session, 1, "DOM.getAttributes", Some(Json::object().with("nodeId", Json::Unsigned(id))));
    assert_eq!(response["result"]["attributes"], value(r#"["value","<v>","name","n","type","text"]"#));
}

#[test]
fn document_is_numbered_like_every_query() {
    let mut session = test_session(parse_html("<title>T</title><body><p>One</p><div><p>Two</p></div></body>"));
    let response = respond(&mut session, 1, "DOM.getDocument", None);
    let body = &response["result"]["root"]["children"][0]["children"][1];
    assert_eq!(body["nodeId"], 4);
    assert_eq!(body["children"][1]["children"][0]["nodeId"], 7);
    assert_eq!(body["nodeName"], "BODY");
    assert_eq!(response["result"]["backendNodeId"], 1);
}

#[test]
fn methods_without_a_page_are_answered() {
    let mut session = test_session(parse_html(""));
    for method in ["Runtime.enable", "Page.enable", "Network.enable", "DOM.enable", "Target.setDiscoverTargets", "Target.setAutoAttach", "Target.disposeBrowserContext"] {
        assert_eq!(respond(&mut session, 1, method, None)["result"], value("{}"));
    }
    assert_eq!(respond(&mut session, 1, "Target.closeTarget", None)["result"], value(r#"{"success":true}"#));
    assert_eq!(respond(&mut session, 1, "Page.reload", None)["result"]["errorText"], "no URL available for navigation");
    let tree = respond(&mut session, 1, "Page.getResourceTree", None);
    assert_eq!(tree["result"]["frameTree"]["frame"]["url"], "about:blank");
    let info = respond(&mut session, 1, "Target.getTargetInfo", None);
    assert_eq!(info["result"]["targetInfo"]["url"], "about:blank");
    let attached = respond(&mut session, 1, "Target.attachToBrowserTarget", None);
    assert_eq!(attached["result"]["sessionId"], "kite-lite-session");
}

#[test]
fn navigation_replaces_the_page_and_loses_the_focus() {
    let mut session = typing_session("<input>");
    let page = page_from_response(
        "<title>New</title><a href='x'>x</a>",
        "https://example.com/dir/",
        &vec!["a=1; Secure".to_string()],
    );
    let result = finish_navigation(&mut session, Ok(page));
    assert_eq!(plain(&result), value(r#"{"frameId":"kite-lite-frame","loaderId":"kite-lite-loader"}"#));
    assert_eq!(session.focused_node_id, None);
    assert_eq!(session.page.url.as_deref(), Some("https://example.com/dir/"));
    assert_eq!(session.page.links, vec!["https://example.com/dir/x"]);
    assert_eq!(session.page.cookies[0].name, "a");
    assert_eq!(session.page.root.layout.unwrap().width, 10240);
}

#[test]
fn failed_navigation_leaves_the_session() {
    let mut session = typing_session("<input>");
    let focused = session.focused_node_id;
    let result = finish_navigation(&mut session, Err("refused".to_string()));
    assert_eq!(plain(&result), value(r#"{"errorText":"refused"}"#));
    assert_eq!(session.focused_node_id, focused);
    assert_eq!(plain(&navigation_error("x")), value(r#"{"errorText":"x"}"#));
}

#[test]
fn clicks_and_keys_reach_the_session() {
    let mut page = parse_html("<a href='/go'>Go</a><p>text</p><input name=q>");
    compute_layout(&mut page, 8000);
    let mut session = test_session(page);
    let id = find_selector(&session.page.root, "input").unwrap();
    let y = find_node(&session.page.root, id).unwrap().layout.unwrap().y;
    let real = Json::Real(format!("{}.{}", y / 10, y % 10));
    let press = Json::object().with("type", Json::string("mousePressed")).with("y", real.clone());
    let release = Json::object().with("type", Json::string("mouseReleased")).with("y", real);
    assert_eq!(respond(&mut session, 1, "Input.dispatchMouseEvent", Some(release))["result"], value("{}"));
    assert_eq!(session.focused_node_id, None);
    assert_eq!(respond(&mut session, 1, "Input.dispatchMouseEvent", Some(press))["result"], value("{}"));
    assert_eq!(session.focused_node_id, Some(id));
    let key = Json::object().with("type", Json::string("char")).with("text", Json::string("rust"));
    respond(&mut session, 1, "Input.dispatchKeyEvent", Some(key));
    assert_eq!(input_value(&session).as_deref(), Some("rust"));
    let link = Json::object().with("type", Json::string("mousePressed")).with("y", Json::Unsigned(1));
    match cdp_step(&mut session, CdpMethod::DispatchMouseEvent, &link) {
        CdpStep::Navigate(url) => assert_eq!(url, "/go"),
        _ => panic!("expected Navigate"),
    }
}

#[test]
fn requests_are_read_and_answered_in_their_session() {
    let message = Json::object()
        .with("id", Json::Unsigned(2))
        .with("sessionId", Json::string("s"))
        .with("method", Json::string("Runtime.evaluate"))
        .with("params", Json::object().with("expression", Json::string("1 + 1")));
    let request = read_request(&message);
    assert_eq!(request.method, "Runtime.evaluate");
    let mut session = test_session(parse_html(""));
    match cdp_step(&mut session, cdp_method(&request.method), &request.params) {
        CdpStep::Evaluate(script) => assert_eq!(script, "1 + 1"),
        _ => panic!("expected Evaluate"),
    }
    let response = plain(&cdp_response(&request, evaluation_result(Ok("2".to_string()))));
    assert_eq!(
        response,
        value(r#"{"id":2,"result":{"result":{"type":"string","value":"2"}},"sessionId":"s"}"#)
    );
    let failed = plain(&cdp_response(&request, evaluation_result(Err("bad".to_string()))));
    assert_eq!(failed["result"]["exceptionDetails"]["text"], "bad");
    let lost = plain(&cdp_unavailable(&request));
    assert_eq!(lost, value(r#"{"id":2,"error":{"message":"page state unavailable"},"sessionId":"s"}"#));
    let empty = read_request(&Json::object());
    assert!(matches!(empty.id, Json::Null));
    assert_eq!(empty.method, "");
    assert_eq!(empty.session_id, None);
}

#[test]
fn load_events_follow_a_navigation_only() {
    let mut session = test_session(parse_html(""));
    let result = finish_navigation(&mut session, Ok(parse_html("<p>x</p>")));
    let events: Vec<serde_json::Value> =
        events_after(&result, &Some("s".to_string())).iter().map(plain).collect();
    assert_eq!(events.len(), 3);
    assert_eq!(events[0], value(r#"{"method":"Page.frameStartedLoading","params":{"frameId":"kite-lite-frame"},"sessionId":"s"}"#));
    assert_eq!(events[1], value(r#"{"method":"Page.loadEventFired","params":{"timestamp":0.0},"sessionId":"s"}"#));
    assert_eq!(events[2]["method"], "Page.frameStoppedLoading");
    assert!(events_after(&navigation_error("x"), &None).is_empty());
    assert!(events_after(&Json::object(), &None).is_empty());
}

#[test]
fn attaching_is_announced() {
    let page = parse_html("<title>T</title>");
    let auto = Json::object().with("autoAttach", Json::Bool(true));
    let off = Json::object().with("autoAttach", Json::Bool(false));
    let event = attached_event(&page, CdpMethod::SetAutoAttach, &auto).expect("an event follows");
    let event = plain(&event);
    assert_eq!(event["method"], "Target.attachedToTarget");
    assert_eq!(event["params"]["sessionId"], "kite-lite-session");
    assert_eq!(event["params"]["targetInfo"]["title"], "T");
    assert_eq!(event["params"]["waitingForDebugger"], false);
    assert!(attached_event(&page, CdpMethod::SetAutoAttach, &off).is_none());
    assert!(attached_event(&page, CdpMethod::AttachToTarget, &Json::Null).is_some());
    assert!(attached_event(&page, CdpMethod::AttachToBrowserTarget, &Json::Null).is_none());
}

#[test]
fn messages_are_read_from_text_and_sent_in_order() {
    let request = receive_request(
        r#"{"id":7,"method":"Target.attachToTarget","params":{"y":1.5},"sessionId":"s"}"#,
    )
    .expect("a request");
    assert_eq!(plain(&request.id), 7);
    assert_eq!(request.session_id.as_deref(), Some("s"));
    assert_eq!(request.params.get_tenths("y"), 15);
    let page = parse_html("<title>T</title>");
    let navigated = Json::object().with("frameId", Json::string("kite-lite-frame"));
    let sent: Vec<serde_json::Value> =
        messages_for(&request, Some(navigated), Some(&page)).iter().map(plain).collect();
    let names: Vec<&str> = sent[1..].iter().map(|m| m["method"].as_str().unwrap()).collect();
    assert_eq!(sent[0]["id"], 7);
    assert_eq!(
        names,
        vec![
            "Page.frameStartedLoading",
            "Page.loadEventFired",
            "Page.frameStoppedLoading",
            "Target.attachedToTarget",
        ]
    );
    assert!(sent[..4].iter().all(|message| message["sessionId"] == "s"));
    let lost = messages_for(&request, None, None);
    assert_eq!(lost.len(), 1);
    assert_eq!(plain(&lost[0])["error"]["message"], "page state unavailable");
    let error = receive_request("{").unwrap_err();
    assert!(error.starts_with("EOF while parsing"), "{error}");
}

#[test]
fn requests_for_nodes_agree() {
    let mut session = test_session(parse_html("<p>a</p><div><P>b</P></div><b>c</b>"));
    for selector in ["p", "P", "*", "video"] {
        let query = Json::object().with("selector", Json::string(selector));
        let all = respond(&mut session, 1, "DOM.querySelectorAll", Some(query.clone()));
        let all: Vec<u64> =
            all["result"]["nodeIds"].as_array().unwrap().iter().map(|id| id.as_u64().unwrap()).collect();
        let one = respond(&mut session, 1, "DOM.querySelector", Some(query));
        assert_eq!(one["result"]["nodeId"].as_u64(), Some(all.first().copied().unwrap_or(0)));
        assert!(all.windows(2).all(|pair| pair[0] < pair[1]));
        for id in all {
            let params = Json::object().with("nodeId", Json::Unsigned(id));
            let html = respond(&mut session, 1, "DOM.getOuterHTML", Some(params));
            let html = html["result"]["outerHTML"].as_str().unwrap().to_string();
            assert!(html.starts_with('<'));
            assert!(selector == "*" || html.starts_with("<p>"));
        }
    }
    let none = Json::object().with("nodeId", Json::Unsigned(0));
    let html = respond(&mut session, 1, "DOM.getOuterHTML", Some(none.clone()));
    assert_eq!(html["result"], value(r#"{"outerHTML":""}"#));
    let attributes = respond(&mut session, 1, "DOM.getAttributes", Some(none.clone()));
    assert_eq!(attributes["result"], value(r#"{"attributes":[]}"#));
    let model = respond(&mut session, 1, "DOM.getBoxModel", Some(none));
    assert_eq!(model["result"], value("{}"));
}

#[test]
fn replacing_entities_gives_the_text_back() {
    for text in ["", "<a> & \"b\" 'c'", "&lt;", "&amp;lt;&quot;", "a&b<c>d"] {
        let back = html_escape(text)
            .replace("&lt;", "<")
            .replace("&gt;", ">")
            .replace("&quot;", "\"")
            .replace("&amp;", "&");
        assert_eq!(back, text);
    }
    assert_eq!(html_escape("it's"), "it's");
}
