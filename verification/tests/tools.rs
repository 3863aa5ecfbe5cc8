use kite_lite_core::forms::{encode_query, submission_url};
use kite_lite_core::json::Json;
use kite_lite_core::{
    build_webmcp_submission, discover_webmcp_tools, lint_webmcp, parse_html, resolve_links, Page,
};

fn plain(json: &Json) -> serde_json::Value {
    match json {
        Json::Null => serde_json::Value::Null,
        Json::Bool(b) => serde_json::Value::from(*b),
        Json::Unsigned(n) => serde_json::Value::from(*n),
        Json::Negative(n) => serde_json::Value::from(*n),
        Json::Real(text) => serde_json::from_str(text).expect("a number"),
        Json::Str(s) => serde_json::Value::from(s.as_str()),
        Json::Array(items) => items.iter().map(plain).collect(),
        Json::Object(entries) => entries.iter().map(|(k, v)| (k.clone(), plain(v))).collect(),
    }
}

fn value(text: &str) -> serde_json::Value {
    serde_json::from_str(text).expect("JSON")
}

#[test]
fn discovers_a_form_with_toolname_as_a_tool() {
    let page = parse_html(
        r#"<form toolname="search-cars" tooldescription="Search for a car">
             <input type="text" name="make" required toolparamdescription="The make">
             <input type="text" name="model">
             <button type="submit">Search</button>
           </form>"#,
    );
    let tools = discover_webmcp_tools(&page);
    assert_eq!(tools.len(), 1);
    let tool = &tools[0];
    assert_eq!(tool.name, "search-cars");
    assert_eq!(tool.description, "Search for a car");
    assert!(!tool.autosubmit);
    let schema = plain(&tool.input_schema);
    assert_eq!(
        schema["properties"]["make"]["description"],
        "The make"
    );
    assert_eq!(schema["required"], value(r#"["make"]"#));
    assert!(schema["properties"]["model"]["description"].is_null());
}

#[test]
fn ignores_forms_without_a_toolname() {
    let page = parse_html(r#"<form action="/search"><input name="q"></form>"#);
    assert!(discover_webmcp_tools(&page).is_empty());
}

#[test]
fn select_fields_become_a_string_enum() {
    let page = parse_html(
        r#"<form toolname="route" tooldescription="Route a request">
             <select name="team">
               <option value="a">Team A</option>
               <option value="b">Team B</option>
             </select>
           </form>"#,
    );
    let tool = &discover_webmcp_tools(&page)[0];
    assert_eq!(
        plain(&tool.input_schema)["properties"]["team"]["enum"],
        value(r#"["a", "b"]"#)
    );
}

#[test]
fn autosubmit_attribute_is_reported() {
    let page = parse_html(
        r#"<form toolname="go" tooldescription="Go" toolautosubmit><input name="q"></form>"#,
    );
    assert!(discover_webmcp_tools(&page)[0].autosubmit);
}

#[test]
fn build_submission_uses_arguments_and_falls_back_to_dom_values() {
    let mut page = parse_html(
        r#"<form toolname="search" tooldescription="Search" action="/search">
             <input name="q">
             <input name="lang" value="en">
           </form>"#,
    );
    resolve_links(&mut page, "https://example.com/");
    let arguments = Json::object().with("q", Json::string("rust mcp"));
    let (action_url, query) =
        build_webmcp_submission(&page, "search", &arguments).expect("tool not found");
    assert_eq!(action_url, "https://example.com/search");
    assert_eq!(query, "q=rust+mcp&lang=en");
}

#[test]
fn build_submission_returns_none_for_an_unknown_tool() {
    let page = parse_html(r#"<form toolname="a" tooldescription="A"></form>"#);
    assert!(build_webmcp_submission(&page, "b", &Json::object()).is_none());
}

#[test]
fn schema_is_exact() {
    let page = parse_html(
        r#"<form toolname="t" tooldescription="d">
             <input name="on" type="checkbox" required>
             <input name="n" type="number" toolparamdescription="how many">
             <textarea name="on" required></textarea>
             <input type="text">
             <select name="s"><option>One</option><option value="2">Two</option></select>
           </form>"#,
    );
    let schema = plain(&discover_webmcp_tools(&page)[0].input_schema);
    assert_eq!(
        schema,
        value(
            r#"{"type":"object",
                "properties":{
                  "on":{"type":"string"},
                  "n":{"type":"number","description":"how many"},
                  "s":{"type":"string","enum":["One","2"]}},
                "required":["on","on"]}"#
        )
    );
}

fn submit(page: &Page, arguments: &Json) -> (String, String) {
    build_webmcp_submission(page, "t", arguments).expect("the tool is there")
}

#[test]
fn arguments_are_written_as_field_values() {
    let page = parse_html(
        r#"<form toolname="t"><input name="a"><input name="b"><input name="c"><input name="d"><input name="e"></form>"#,
    );
    let arguments = Json::object()
        .with("a", Json::Bool(true))
        .with("b", Json::Unsigned(3))
        .with("c", Json::Negative(-4))
        .with("d", Json::array(vec![Json::Null, Json::string("x")]))
        .with("e", Json::Real("1.5".to_string()));
    assert_eq!(
        submit(&page, &arguments),
        ("".to_string(), "a=true&b=3&c=-4&d=%5Bnull%2C%22x%22%5D&e=1.5".to_string())
    );
    // The keys of an object come out in order.
    let nested = Json::object().with("z", Json::Null).with("a", Json::Unsigned(1));
    let (_, query) = submit(&page, &Json::object().with("a", nested));
    assert_eq!(query, "a=%7B%22a%22%3A1%2C%22z%22%3Anull%7D&b=&c=&d=&e=");
}

#[test]
fn missing_arguments_fall_back_to_current_values() {
    let mut page = parse_html(
        r#"<form toolname="t"><select name="s"><option value="x">X</option><option>Y</option></select><select name="none"></select><textarea name="a">text</textarea></form>"#,
    );
    page.url = Some("https://example.com/here".to_string());
    assert_eq!(
        submit(&page, &Json::object()),
        ("https://example.com/here".to_string(), "s=x&none=&a=text".to_string())
    );
    // Arguments that are no object hold no value for any field.
    assert_eq!(submit(&page, &Json::string("s")).1, "s=x&none=&a=text");
}

#[test]
fn first_form_of_a_name_is_called() {
    let page = parse_html(
        r#"<form toolname="t" action="/one"></form><form toolname="t" action="/two"></form>"#,
    );
    assert_eq!(submit(&page, &Json::object()), ("/one".to_string(), "".to_string()));
    assert_eq!(discover_webmcp_tools(&page).len(), 2);
}

fn pairs(list: &[(&str, &str)]) -> Vec<(String, String)> {
    list.iter().map(|(k, v)| (k.to_string(), v.to_string())).collect()
}

#[test]
fn queries_are_form_encoded() {
    assert_eq!(encode_query(&pairs(&[])), "");
    assert_eq!(encode_query(&pairs(&[("a b", "c&d")])), "a+b=c%26d");
    assert_eq!(encode_query(&pairs(&[("", ""), ("é", "=")])), "=&%C3%A9=%3D");
}

#[test]
fn submission_goes_behind_an_existing_query() {
    assert_eq!(submission_url("/s", "q=1"), "/s?q=1");
    assert_eq!(submission_url("/s?x=2", "q=1"), "/s?x=2&q=1");
    assert_eq!(submission_url("/s", ""), "/s");
}

#[test]
fn options_in_a_group_are_options() {
    let page = parse_html(
        r#"<form toolname="t"><select name="team" toolparamdescription="T"><optgroup label="g"><option value="a">A</option><option>B</option></optgroup><option>C</option></select></form>"#,
    );
    let schema = plain(&discover_webmcp_tools(&page)[0].input_schema);
    assert_eq!(schema["properties"]["team"]["enum"], value(r#"["a", "B", "C"]"#));
    assert_eq!(submit(&page, &Json::object()).1, "team=a");
    assert!(lint_webmcp(&page).iter().all(|finding| !finding.message.contains("<option>")));
    let empty = parse_html(r#"<form toolname="t"><select name="team"></select></form>"#);
    assert!(lint_webmcp(&empty).iter().any(|finding| finding.message.contains("<option>")));
}

#[test]
fn resolving_twice_is_resolving_once() {
    let mut page = parse_html(
        "<a href='x?y#z'>1</a><a href='//h/p'>2</a><a href='mailto:a@b'>3</a><a href='http://['>4</a><form action='../s'></form>",
    );
    resolve_links(&mut page, "https://example.com/a/b/");
    let once = page.links.clone();
    assert_eq!(once, vec!["https://example.com/a/b/x?y#z", "https://h/p", "mailto:a@b", "http://["]);
    resolve_links(&mut page, "https://example.com/a/b/");
    assert_eq!(page.links, once);
}
