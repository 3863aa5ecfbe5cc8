use base64::Engine;
use kite_lite_core::json::{write_json, Json};
use kite_lite_core::mcp::{
    answer_error, answer_result, finish_fetch, finish_script, finish_tool_navigation,
    image_content, mcp_dispatch, plan_tool, read_message, receive_message, render_result, tool_error, tool_result,
    FetchStep, McpTool, RpcStep, ToolStep,
};
use kite_lite_core::session::{page_from_response, CdpSession};
use kite_lite_core::{parse_html, JsRuntime, Page};

fn plain(json: &Json) -> serde_json::Value {
    match json {
        Json::Null => serde_json::Value::Null,
        Json::Bool(b) => serde_json::Value::from(*b),
        Json::Unsigned(n) => serde_json::Value::from(*n),
        Json::Negative(n) => serde_json::Value::from(*n),
        Json::Real(text) => serde_json::from_str(text).expect("a number"),
        Json::Str(s) => serde_json::Value::from(s.as_str()),
        Json::Array(items) => items.iter().map(plain).collect(),
        Json::Object(entries) => entries.iter().map(|(k, v)| (k.clone(), plain(v))).collect(),
    }
}

fn from_value(value: &serde_json::Value) -> Json {
    match value {
        serde_json::Value::Null => Json::Null,
        serde_json::Value::Bool(b) => Json::Bool(*b),
        serde_json::Value::Number(n) => Json::Unsigned(n.as_u64().expect("a natural number")),
        serde_json::Value::String(s) => Json::string(s),
        serde_json::Value::Array(items) => Json::array(items.iter().map(from_value).collect()),
        serde_json::Value::Object(map) => {
            Json::Object(map.iter().map(|(k, v)| (k.clone(), from_value(v))).collect())
        }
    }
}

fn value(text: &str) -> serde_json::Value {
    serde_json::from_str(text).expect("JSON")
}

/// A site of a few pages.
fn fetch(url: &str) -> Result<Page, String> {
    let path = url.strip_prefix("http://site").ok_or("no such host")?;
    let (route, query) = path.split_once('?').unwrap_or((path, ""));
    let parameter = |name: &str| -> String {
        url::form_urlencoded::parse(query.as_bytes())
            .find(|(key, _)| key == name)
            .map(|(_, value)| value.into_owned())
            .unwrap_or_default()
    };
    let body = match route {
        "/" => r#"<title>Home</title><a href="/target">Go</a><form action="/search"><input name="q"><button>Search</button></form>"#.to_string(),
        "/target" => "<title>Landed</title>".to_string(),
        "/search" => format!("<title>Results: {}</title>", parameter("q")),
        "/webmcp" => r#"<title>WebMCP Home</title>
            <form toolname="search-cars" tooldescription="Search for a car" action="/webmcp-search">
                <input type="text" name="make" required toolparamdescription="The vehicle's make">
                <input type="text" name="model">
                <button type="submit">Search</button>
            </form>"#
            .to_string(),
        "/webmcp-search" => {
            format!("<title>Results: {} {}</title>", parameter("make"), parameter("model"))
        }
        _ => return Err("404 Not Found".to_string()),
    };
    Ok(page_from_response(&body, url, &Vec::new()))
}

fn call(session: &mut CdpSession, tool: McpTool, arguments: &Json) -> Json {
    match plan_tool(session, tool, arguments) {
        ToolStep::Content(content) => tool_result(content),
        ToolStep::Failed(message) => tool_error(&message),
        ToolStep::Render(format) => render_result(&session.page, &format),
        ToolStep::Navigate { url, clicked } => finish_tool_navigation(session, clicked, fetch(&url)),
        ToolStep::Fetch { url, purpose } => match finish_fetch(purpose, fetch(&url)) {
            FetchStep::Result(result) => result,
            FetchStep::Evaluate { page, script } => {
                let outcome = JsRuntime::default().evaluate_page(&page, &script);
                finish_script(outcome.map_err(|error| error.message()))
            }
        },
    }
}

struct McpClient {
    session: CdpSession,
}

impl McpClient {
    fn start() -> McpClient {
        let mut client = McpClient {
            session: CdpSession::new(parse_html("<title>New Page</title><body></body>")),
        };
        let init = client.send(
            0,
            "initialize",
            r#"{"protocolVersion": "2024-11-05", "capabilities": {}, "clientInfo": {"name": "kite-lite-test", "version": "0"}}"#,
        );
        assert_eq!(init["result"]["serverInfo"]["name"], "kite-lite");
        client
    }

    fn send(&mut self, id: u64, method: &str, params: &str) -> serde_json::Value {
        let message = Json::object()
            .with("jsonrpc", Json::string("2.0"))
            .with("id", Json::Unsigned(id))
            .with("method", Json::string(method))
            .with("params", from_value(&value(params)));
        let request = read_message(&message).expect("a request is answered");
        let answer = match mcp_dispatch(&request.method, &request.params) {
            RpcStep::Result(result) => answer_result(&request.id, result),
            RpcStep::Error { code, message } => answer_error(&request.id, code, &message),
            RpcStep::Call { tool, arguments } => {
                answer_result(&request.id, call(&mut self.session, tool, &arguments))
            }
        };
        plain(&answer)
    }

    fn call_tool(&mut self, id: u64, name: &str, arguments: &str) -> serde_json::Value {
        self.send(id, "tools/call", &format!(r#"{{"name": "{name}", "arguments": {arguments}}}"#))
    }
}

fn summary(response: &serde_json::Value) -> serde_json::Value {
    value(response["result"]["content"][0]["text"].as_str().expect("missing text content"))
}

#[test]
fn mcp_initialize_and_list_tools() {
    let mut mcp = McpClient::start();
    let list = mcp.send(1, "tools/list", "{}");
    let tools = list["result"]["tools"].as_array().expect("tools/list missing tools array");
    let names: Vec<&str> = tools.iter().filter_map(|tool| tool["name"].as_str()).collect();
    for expected in ["fetch_page", "render_screenshot", "eval_js", "browser_navigate", "browser_click", "browser_type", "browser_get_dom", "browser_screenshot", "browser_call_tool"] {
        assert!(names.contains(&expected), "missing tool '{expected}' in {names:?}");
    }
}

#[test]
fn mcp_fetch_page_returns_a_lightweight_summary() {
    let mut mcp = McpClient::start();
    let response = mcp.call_tool(2, "fetch_page", r#"{"url": "http://site/"}"#);
    assert_eq!(response["result"]["isError"], false, "{response:?}");
    let summary = summary(&response);
    assert_eq!(summary["title"], "Home");
    assert!(summary.get("root").is_none(), "summary should not include the full DOM tree");
}

#[test]
fn mcp_render_screenshot_returns_base64_png_image_content() {
    let mut mcp = McpClient::start();
    let response = mcp.call_tool(2, "render_screenshot", r#"{"url": "http://site/"}"#);
    let content = &response["result"]["content"][0];
    assert_eq!(content["type"], "image");
    assert_eq!(content["mimeType"], "image/png");
    let data = content["data"].as_str().expect("missing base64 image data");
    let bytes = base64::engine::general_purpose::STANDARD
        .decode(data)
        .expect("image data is not valid base64");
    assert_eq!(&bytes[..8], b"\x89PNG\r\n\x1a\n");
}

#[test]
fn mcp_eval_js_runs_against_an_isolated_snapshot() {
    let mut mcp = McpClient::start();
    let response = mcp.call_tool(
        2,
        "eval_js",
        r#"{"url": "http://site/", "script": "document.title"}"#,
    );
    assert_eq!(response["result"]["isError"], false, "{response:?}");
    assert_eq!(response["result"]["content"][0]["text"], "Home");
}

#[test]
fn mcp_browser_session_navigates_clicks_and_submits_a_form() {
    let mut mcp = McpClient::start();

    let nav = mcp.call_tool(2, "browser_navigate", r#"{"url": "http://site/"}"#);
    assert_eq!(nav["result"]["isError"], false, "{nav:?}");

    let click = mcp.call_tool(3, "browser_click", r#"{"selector": "a"}"#);
    assert_eq!(click["result"]["isError"], false, "{click:?}");
    let click_summary = summary(&click);
    assert_eq!(click_summary["action"], "navigated");
    assert_eq!(click_summary["page"]["title"], "Landed");

    // Back to the form page: focus the input by selector while typing, then
    // click submit and confirm that the field's value made it into the query.
    mcp.call_tool(4, "browser_navigate", r#"{"url": "http://site/"}"#);
    let typed = mcp.call_tool(5, "browser_type", r#"{"selector": "input", "text": "rust"}"#);
    assert_eq!(typed["result"]["isError"], false, "{typed:?}");

    let submit = mcp.call_tool(6, "browser_click", r#"{"selector": "button"}"#);
    assert_eq!(submit["result"]["isError"], false, "{submit:?}");
    assert_eq!(summary(&submit)["page"]["title"], "Results: rust");
}

#[test]
fn mcp_browser_get_dom_and_unknown_selector_error() {
    let mut mcp = McpClient::start();
    mcp.call_tool(2, "browser_navigate", r#"{"url": "http://site/"}"#);

    let dom = mcp.call_tool(3, "browser_get_dom", r#"{"selector": "a"}"#);
    assert_eq!(dom["result"]["isError"], false, "{dom:?}");
    assert_eq!(
        dom["result"]["content"][0]["text"],
        "<a href=\"http://site/target\">Go</a>"
    );

    let missing = mcp.call_tool(4, "browser_click", r#"{"selector": "video"}"#);
    assert_eq!(missing["result"]["isError"], true, "{missing:?}");
}

#[test]
fn mcp_discovers_and_calls_a_declarative_webmcp_tool() {
    let mut mcp = McpClient::start();

    let nav = mcp.call_tool(2, "browser_navigate", r#"{"url": "http://site/webmcp"}"#);
    assert_eq!(nav["result"]["isError"], false, "{nav:?}");
    let nav_summary = summary(&nav);
    let tools = nav_summary["tools"].as_array().expect("missing discovered tools");
    assert_eq!(tools.len(), 1);
    assert_eq!(tools[0]["name"], "search-cars");
    assert_eq!(tools[0]["description"], "Search for a car");
    assert_eq!(tools[0]["autosubmit"], false);
    assert_eq!(tools[0]["inputSchema"]["required"], value(r#"["make"]"#));
    assert_eq!(
        tools[0]["inputSchema"]["properties"]["make"]["description"],
        "The vehicle's make"
    );

    let call = mcp.call_tool(
        3,
        "browser_call_tool",
        r#"{"name": "search-cars", "arguments": {"make": "BMW", "model": "330i"}}"#,
    );
    assert_eq!(call["result"]["isError"], false, "{call:?}");
    assert_eq!(summary(&call)["title"], "Results: BMW 330i");

    let missing = mcp.call_tool(4, "browser_call_tool", r#"{"name": "no-such-tool"}"#);
    assert_eq!(missing["result"]["isError"], true, "{missing:?}");
}

fn error_of(mcp: &mut McpClient, name: &str, arguments: &str) -> String {
    let response = mcp.call_tool(9, name, arguments);
    assert_eq!(response["result"]["isError"], true, "{response:?}");
    response["result"]["content"][0]["text"].as_str().expect("a message").to_string()
}

#[test]
fn tool_errors_are_part_of_the_result() {
    let mut mcp = McpClient::start();
    assert_eq!(error_of(&mut mcp, "fetch_page", "{}"), "missing 'url' argument");
    assert_eq!(error_of(&mut mcp, "fetch_page", r#"{"url": 1}"#), "missing 'url' argument");
    assert_eq!(error_of(&mut mcp, "render_screenshot", "{}"), "missing 'url' argument");
    assert_eq!(error_of(&mut mcp, "eval_js", "{}"), "missing 'url' argument");
    assert_eq!(error_of(&mut mcp, "eval_js", r#"{"url": "http://site/"}"#), "missing 'script' argument");
    assert_eq!(error_of(&mut mcp, "browser_navigate", r#"{"url": ""}"#), "no URL available for navigation");
    assert_eq!(error_of(&mut mcp, "browser_navigate", r#"{"url": "http://site/nope"}"#), "404 Not Found");
    assert_eq!(error_of(&mut mcp, "browser_click", "{}"), "missing 'selector' argument");
    assert_eq!(error_of(&mut mcp, "browser_click", r#"{"selector": "video"}"#), "no element matches selector 'video'");
    assert_eq!(error_of(&mut mcp, "browser_type", "{}"), "missing 'text' argument");
    assert_eq!(
        error_of(&mut mcp, "browser_type", r#"{"text": "x"}"#),
        "no focused input — click one first, or pass 'selector'"
    );
    assert_eq!(
        error_of(&mut mcp, "browser_type", r#"{"text": "x", "selector": "input"}"#),
        "no element matches selector 'input'"
    );
    assert_eq!(error_of(&mut mcp, "browser_get_dom", r#"{"selector": "video"}"#), "no element matches selector 'video'");
    assert_eq!(error_of(&mut mcp, "browser_call_tool", "{}"), "missing 'name' argument");
    assert_eq!(
        error_of(&mut mcp, "browser_call_tool", r#"{"name": "t"}"#),
        "no WebMCP tool named 't' on the current page"
    );
    assert_eq!(error_of(&mut mcp, "eval_js", r#"{"url": "http://site/nope", "script": "1"}"#), "404 Not Found");
    assert_eq!(mcp.session.page.title.as_deref(), Some("New Page"));
}

#[test]
fn protocol_errors_have_their_codes() {
    let mut mcp = McpClient::start();
    assert_eq!(
        mcp.send(1, "nothing", "{}"),
        value(r#"{"jsonrpc":"2.0","id":1,"error":{"code":-32601,"message":"method not found: nothing"}}"#)
    );
    assert_eq!(
        mcp.send(2, "tools/call", "{}"),
        value(r#"{"jsonrpc":"2.0","id":2,"error":{"code":-32602,"message":"missing tool name"}}"#)
    );
    assert_eq!(
        mcp.send(3, "tools/call", r#"{"name": "x"}"#),
        value(r#"{"jsonrpc":"2.0","id":3,"error":{"code":-32602,"message":"unknown tool: x"}}"#)
    );
    assert_eq!(mcp.send(4, "ping", "{}"), value(r#"{"jsonrpc":"2.0","id":4,"result":{}}"#));
}

#[test]
fn notifications_are_not_answered() {
    let message = Json::object().with("method", Json::string("notifications/initialized"));
    assert!(read_message(&message).is_none());
    assert!(read_message(&Json::string("x")).is_none());
}

#[test]
fn summary_is_exact() {
    let page = page_from_response(
        "<title>T</title><a href='/x'>link</a>",
        "https://example.com/",
        &vec!["a=1; Path=/; Secure; HttpOnly; SameSite=Lax; Domain=d".to_string(), "b=2".to_string()],
    );
    let summary = plain(&kite_lite_core::mcp::page_summary(&page));
    assert_eq!(
        summary,
        value(
            r#"{"url":"https://example.com/","title":"T","text":"link","links":["https://example.com/x"],
                "cookies":[{"name":"a","value":"1","domain":"d","path":"/","secure":true,"http_only":true,"same_site":"Lax"},
                           {"name":"b","value":"2"}]}"#
        )
    );
    let bare = plain(&kite_lite_core::mcp::page_summary(&parse_html("")));
    assert_eq!(bare, value(r#"{"url":null,"title":null,"text":"","links":[]}"#));
}

#[test]
fn clicking_says_what_it_did() {
    let mut mcp = McpClient::start();
    mcp.call_tool(1, "browser_navigate", r#"{"url": "http://site/"}"#);
    let none = mcp.call_tool(2, "browser_click", r#"{"selector": "form"}"#);
    assert_eq!(none["result"]["content"][0]["text"], r#"{"action":"none"}"#);
    let focused = mcp.call_tool(3, "browser_click", r#"{"selector": "input"}"#);
    assert_eq!(focused["result"]["content"][0]["text"], r#"{"action":"focused"}"#);
    let typed = mcp.call_tool(4, "browser_type", r#"{"text": "a b"}"#);
    assert_eq!(typed["result"]["content"][0]["text"], "ok");
    let dom = mcp.call_tool(5, "browser_get_dom", r#"{"selector": "input"}"#);
    assert_eq!(dom["result"]["content"][0]["text"], r#"<input value="a b" name="q"></input>"#);
    let submit = mcp.call_tool(6, "browser_click", r#"{"selector": "button"}"#);
    assert_eq!(summary(&submit)["page"]["url"], "http://site/search?q=a+b");
    assert_eq!(mcp.session.focused_node_id, None);
}

#[test]
fn typing_with_a_selector_is_clicking_and_typing() {
    let mut one = McpClient::start();
    one.call_tool(1, "browser_navigate", r#"{"url": "http://site/"}"#);
    one.call_tool(2, "browser_type", r#"{"selector": "input", "text": "x"}"#);
    let mut two = McpClient::start();
    two.call_tool(1, "browser_navigate", r#"{"url": "http://site/"}"#);
    two.call_tool(2, "browser_click", r#"{"selector": "input"}"#);
    two.call_tool(3, "browser_type", r#"{"text": "x"}"#);
    let dom = |mcp: &mut McpClient| mcp.call_tool(4, "browser_get_dom", "{}")["result"].clone();
    assert_eq!(dom(&mut one), dom(&mut two));
    assert_eq!(one.session.focused_node_id, two.session.focused_node_id);
}

#[test]
fn fetching_leaves_the_session_alone() {
    let mut mcp = McpClient::start();
    mcp.call_tool(1, "fetch_page", r#"{"url": "http://site/"}"#);
    mcp.call_tool(2, "render_screenshot", r#"{"url": "http://site/", "format": "svg"}"#);
    mcp.call_tool(3, "eval_js", r#"{"url": "http://site/", "script": "1"}"#);
    assert_eq!(mcp.session.page.title.as_deref(), Some("New Page"));
}

#[test]
fn screenshots_as_svg_are_text() {
    let mut mcp = McpClient::start();
    mcp.call_tool(1, "browser_navigate", r#"{"url": "http://site/"}"#);
    let shot = mcp.call_tool(2, "browser_screenshot", r#"{"format": "svg"}"#);
    let text = shot["result"]["content"][0]["text"].as_str().expect("text");
    assert!(text.starts_with("<svg"));
    assert!(text.contains(">Go</text>"));
    let image = plain(&image_content(&vec![1, 2, 3, 255]));
    assert_eq!(image, value(r#"{"type":"image","data":"AQID/w==","mimeType":"image/png"}"#));
}

#[test]
fn failing_scripts_are_tool_errors() {
    let mut mcp = McpClient::start();
    let message = error_of(&mut mcp, "eval_js", r#"{"url": "http://site/", "script": "fetch('x')"}"#);
    assert!(message.starts_with("JavaScript error: "), "{message}");
}

#[test]
fn lines_are_read_as_messages() {
    let request = receive_message(r#" {"id":null,"method":"ping"}"#).unwrap().expect("a request");
    assert_eq!(request.method, "ping");
    assert!(matches!(request.id, Json::Null));
    assert!(receive_message(" \t").unwrap().is_none());
    assert!(receive_message(r#"{"method":"notifications/initialized"}"#).unwrap().is_none());
    assert!(receive_message("nonsense").unwrap_err().starts_with("expected ident"));
    let text = r#"{"a":[null,true,-2,3,1.5,"x\n"],"b":{}}"#;
    let message = format!(r#"{{"id":1,"params":{text}}}"#);
    let params = receive_message(&message).unwrap().expect("a request").params;
    assert_eq!(write_json(&params), text);
}

#[test]
fn images_are_written_as_base64() {
    let encoded = |bytes: &[u8]| plain(&image_content(&bytes.to_vec()))["data"].clone();
    assert_eq!(encoded(b""), "");
    assert_eq!(encoded(b"f"), "Zg==");
    assert_eq!(encoded(b"fo"), "Zm8=");
    assert_eq!(encoded(b"foo"), "Zm9v");
    assert_eq!(encoded(&[255, 239, 190, 0]), "/+++AA==");
}
