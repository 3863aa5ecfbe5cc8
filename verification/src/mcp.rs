//! The engine as a Model Context Protocol server: which tools there are,
//! what a call of each does to the session, and what is answered.
//!
//! A request either is answered at once, or asks for work outside (a page to
//! be fetched or navigated to, a script to be run) whose outcome is answered
//! afterwards. The error of a tool is part of the tool's result, so that the
//! caller sees it: only a call of no tool at all is an error of the protocol.

use crate::cdp::text_param;
use crate::forms::{submission_target, submission_url};
use crate::json::{
    empty_object, json_key_test, json_optional, json_parsed, json_str, json_strings, json_text,
    json_written, law_entries_are_kept, law_field_is_the_first_of_its_key, parse_json, Json,
    JsonView,
};
use crate::model::{CookieInfo, CookieView, Page, PageView};
use crate::outer_html::{element_html, html_of};
use crate::raster::{
    is_png_of, is_refused, is_rendered, is_too_high, render_png, RasterError, RENDER_WIDTH,
};
use crate::render::{render_svg, svg_of};
use crate::seqs::lemma_first_where_is;
use crate::session::{
    action_for, action_target, dispatch_key, keyed, plan_action_for_node, target_of, ActionView,
    CdpSession, ClickAction, SessionView,
};
use crate::text::{all_white_space, is_blank, same_text, text_or_empty};
use crate::tree::{find_node, find_selector, node_at, selected};
use crate::webmcp::{build_submission, discover_tools, submission_of, tools_of, ToolView, WebMcpTool};
use vstd::prelude::*;

verus! {

/// The character that stands for six bits in base64.
pub open spec fn base64_char(n: int) -> char {
    if n < 26 {
        (0x41 + n) as char
    } else if n < 52 {
        (0x61 + n - 26) as char
    } else if n < 62 {
        (0x30 + n - 52) as char
    } else if n == 62 {
        '+'
    } else {
        '/'
    }
}

/// The bytes as base64 text: four characters for every three bytes, with `=`
/// where the last bytes are fewer.
pub open spec fn base64_text(bytes: Seq<u8>) -> Seq<char>
    decreases bytes.len(),
{
    if bytes.len() == 0 {
        Seq::empty()
    } else if bytes.len() == 1 {
        let n = bytes[0] * 16;
        seq![base64_char(n / 64), base64_char(n % 64), '=', '=']
    } else if bytes.len() == 2 {
        let n = (bytes[0] * 256 + bytes[1]) * 4;
        seq![base64_char(n / 4096), base64_char(n / 64 % 64), base64_char(n % 64), '=']
    } else {
        let n = bytes[0] * 65536 + bytes[1] * 256 + bytes[2];
        seq![
            base64_char(n / 262144),
            base64_char(n / 4096 % 64),
            base64_char(n / 64 % 64),
            base64_char(n % 64),
        ] + base64_text(bytes.skip(3))
    }
}

/// Calls `base64::Engine::encode` with the standard alphabet and padding:
/// gives the base64 text of the bytes.
#[verifier::external_body]
fn to_base64(bytes: &Vec<u8>) -> (text: String)
    ensures
        text@ == base64_text(bytes@),
{
    base64::Engine::encode(&base64::engine::general_purpose::STANDARD, bytes)
}

/// The tools that there are.
#[derive(Debug, Clone, Copy, PartialEq, Eq, Structural)]
pub enum McpTool {
    FetchPage,
    RenderScreenshot,
    EvalJs,
    BrowserNavigate,
    BrowserClick,
    BrowserType,
    BrowserGetDom,
    BrowserScreenshot,
    BrowserCallTool,
}

/// The tool that a name names.
pub open spec fn tool_named(name: Seq<char>) -> Option<McpTool> {
    if name == "fetch_page"@ {
        Some(McpTool::FetchPage)
    } else if name == "render_screenshot"@ {
        Some(McpTool::RenderScreenshot)
    } else if name == "eval_js"@ {
        Some(McpTool::EvalJs)
    } else if name == "browser_navigate"@ {
        Some(McpTool::BrowserNavigate)
    } else if name == "browser_click"@ {
        Some(McpTool::BrowserClick)
    } else if name == "browser_type"@ {
        Some(McpTool::BrowserType)
    } else if name == "browser_get_dom"@ {
        Some(McpTool::BrowserGetDom)
    } else if name == "browser_screenshot"@ {
        Some(McpTool::BrowserScreenshot)
    } else if name == "browser_call_tool"@ {
        Some(McpTool::BrowserCallTool)
    } else {
        None
    }
}

/// The tool that a name names.
pub fn mcp_tool(name: &str) -> (tool: Option<McpTool>)
    ensures
        tool == tool_named(name@),
{
    if same_text(name, "fetch_page") {
        Some(McpTool::FetchPage)
    } else if same_text(name, "render_screenshot") {
        Some(McpTool::RenderScreenshot)
    } else if same_text(name, "eval_js") {
        Some(McpTool::EvalJs)
    } else if same_text(name, "browser_navigate") {
        Some(McpTool::BrowserNavigate)
    } else if same_text(name, "browser_click") {
        Some(McpTool::BrowserClick)
    } else if same_text(name, "browser_type") {
        Some(McpTool::BrowserType)
    } else if same_text(name, "browser_get_dom") {
        Some(McpTool::BrowserGetDom)
    } else if same_text(name, "browser_screenshot") {
        Some(McpTool::BrowserScreenshot)
    } else if same_text(name, "browser_call_tool") {
        Some(McpTool::BrowserCallTool)
    } else {
        None
    }
}

/// A text as the content of a result.
pub open spec fn text_json(text: Seq<char>) -> JsonView {
    empty_object().plus("type"@, json_str("text"@)).plus("text"@, json_str(text))
}

/// A text as the content of a result.
pub fn text_content(text: &str) -> (content: Json)
    ensures
        content.deep_view() == text_json(text@),
{
    Json::object().with("type", Json::string("text")).with("text", Json::string(text))
}

/// A tool that a page declares, as it is listed in the page's summary.
pub open spec fn tool_json(tool: ToolView) -> JsonView {
    empty_object().plus("name"@, json_str(tool.name)).plus(
        "description"@,
        json_str(tool.description),
    ).plus("autosubmit"@, JsonView::Bool(tool.autosubmit)).plus("inputSchema"@, tool.input_schema)
}

fn webmcp_tool_json(tool: &WebMcpTool) -> (json: Json)
    ensures
        json.deep_view() == tool_json(tool.deep_view()),
{
    Json::object().with("name", Json::string(tool.name.as_str())).with(
        "description",
        Json::string(tool.description.as_str()),
    ).with("autosubmit", Json::Bool(tool.autosubmit)).with(
        "inputSchema",
        tool.input_schema.clone(),
    )
}

pub open spec fn plus_text(json: JsonView, key: Seq<char>, text: Option<Seq<char>>) -> JsonView {
    match text {
        Some(text) => json.plus(key, json_str(text)),
        None => json,
    }
}

pub open spec fn plus_flag(json: JsonView, key: Seq<char>, flag: bool) -> JsonView {
    if flag {
        json.plus(key, JsonView::Bool(true))
    } else {
        json
    }
}

/// A cookie as it is listed in a page's summary: with those attributes that
/// it has.
pub open spec fn cookie_json(cookie: CookieView) -> JsonView {
    let named = empty_object().plus("name"@, json_str(cookie.name)).plus(
        "value"@,
        json_str(cookie.value),
    );
    let placed = plus_text(plus_text(named, "domain"@, cookie.domain), "path"@, cookie.path);
    let flagged = plus_flag(
        plus_flag(placed, "secure"@, cookie.secure),
        "http_only"@,
        cookie.http_only,
    );
    plus_text(flagged, "same_site"@, cookie.same_site)
}

fn with_text(json: Json, key: &str, text: &Option<String>) -> (more: Json)
    ensures
        more.deep_view() == plus_text(json.deep_view(), key@, text.deep_view()),
{
    match text {
        Some(text) => json.with(key, Json::string(text.as_str())),
        None => json,
    }
}

fn with_flag(json: Json, key: &str, flag: bool) -> (more: Json)
    ensures
        more.deep_view() == plus_flag(json.deep_view(), key@, flag),
{
    if flag {
        json.with(key, Json::Bool(true))
    } else {
        json
    }
}

fn cookie_entry(cookie: &CookieInfo) -> (json: Json)
    ensures
        json.deep_view() == cookie_json(cookie.deep_view()),
{
    let named = Json::object().with("name", Json::string(cookie.name.as_str())).with(
        "value",
        Json::string(cookie.value.as_str()),
    );
    let placed = with_text(with_text(named, "domain", &cookie.domain), "path", &cookie.path);
    let flagged = with_flag(
        with_flag(placed, "secure", cookie.secure),
        "http_only",
        cookie.http_only,
    );
    with_text(flagged, "same_site", &cookie.same_site)
}

pub open spec fn tools_json(tools: Seq<ToolView>) -> JsonView {
    JsonView::Array(tools.map_values(|tool: ToolView| tool_json(tool)))
}

pub open spec fn cookies_json(cookies: Seq<CookieView>) -> JsonView {
    JsonView::Array(cookies.map_values(|cookie: CookieView| cookie_json(cookie)))
}

/// A summary of a page: where it is, what it says and where it leads, the
/// tools that it declares and the cookies that it set, if any. Not the tree
/// of its elements, which would be too much to read.
pub open spec fn summary_of(page: PageView) -> JsonView {
    let plain = empty_object().plus("url"@, json_optional(page.url)).plus(
        "title"@,
        json_optional(page.title),
    ).plus("text"@, json_str(page.text)).plus("links"@, json_strings(page.links));
    let tooled = if tools_of(page).len() > 0 {
        plain.plus("tools"@, tools_json(tools_of(page)))
    } else {
        plain
    };
    if page.cookies.len() > 0 {
        tooled.plus("cookies"@, cookies_json(page.cookies))
    } else {
        tooled
    }
}

/// A summary of a page.
pub fn page_summary(page: &Page) -> (summary: Json)
    ensures
        summary.deep_view() == summary_of(page.deep_view()),
{
    let mut summary = Json::object().with("url", Json::optional_string(&page.url)).with(
        "title",
        Json::optional_string(&page.title),
    ).with("text", Json::string(page.text.as_str())).with("links", Json::strings(&page.links));
    let tools = discover_tools(page);
    if tools.len() > 0 {
        let mut items: Vec<Json> = Vec::new();
        for i in 0..tools.len()
            invariant
                items@.len() == i,
                forall|k: int|
                    0 <= k < i ==> (#[trigger] items@[k]).deep_view() == tool_json(
                        tools@[k].deep_view(),
                    ),
        {
            items.push(webmcp_tool_json(&tools[i]));
        }
        assert(items.deep_view() =~= tools.deep_view().map_values(
            |tool: ToolView| tool_json(tool),
        ));
        summary = summary.with("tools", Json::array(items));
    }
    if page.cookies.len() > 0 {
        let mut items: Vec<Json> = Vec::new();
        for i in 0..page.cookies.len()
            invariant
                items@.len() == i,
                forall|k: int|
                    0 <= k < i ==> (#[trigger] items@[k]).deep_view() == cookie_json(
                        page.cookies@[k].deep_view(),
                    ),
        {
            items.push(cookie_entry(&page.cookies[i]));
        }
        assert(items.deep_view() =~= page.cookies.deep_view().map_values(
            |cookie: CookieView| cookie_json(cookie),
        ));
        summary = summary.with("cookies", Json::array(items));
    }
    summary
}

/// What is to be done with a page that is fetched for one call only.
#[derive(Debug)]
pub enum FetchUse {
    /// Its summary is answered.
    Summarize,
    /// It is rendered to this format.
    Render(String),
    /// This script is run on it.
    Script(String),
}

#[verifier::ext_equal]
pub enum FetchUseView {
    Summarize,
    Render(Seq<char>),
    Script(Seq<char>),
}

impl DeepView for FetchUse {
    type V = FetchUseView;

    open spec fn deep_view(&self) -> FetchUseView {
        match self {
            FetchUse::Summarize => FetchUseView::Summarize,
            FetchUse::Render(format) => FetchUseView::Render(format@),
            FetchUse::Script(script) => FetchUseView::Script(script@),
        }
    }
}

/// What a call of a tool needs before it is answered.
#[derive(Debug)]
pub enum ToolStep {
    /// Nothing: this is the content of the result.
    Content(Json),
    /// Nothing: this is the tool's error.
    Failed(String),
    /// A page from an address, for this call only.
    Fetch { url: String, purpose: FetchUse },
    /// The session's page from an address.
    Navigate { url: String, clicked: bool },
    /// The session's page, rendered to this format.
    Render(String),
}

/// What a call of a tool needs before it is answered, as a mathematical
/// value.
#[verifier::ext_equal]
pub enum ToolStepView {
    Content(JsonView),
    Failed(Seq<char>),
    Fetch { url: Seq<char>, purpose: FetchUseView },
    Navigate { url: Seq<char>, clicked: bool },
    Render(Seq<char>),
}

impl DeepView for ToolStep {
    type V = ToolStepView;

    open spec fn deep_view(&self) -> ToolStepView {
        match self {
            ToolStep::Content(content) => ToolStepView::Content(content.deep_view()),
            ToolStep::Failed(message) => ToolStepView::Failed(message@),
            ToolStep::Fetch { url, purpose } => ToolStepView::Fetch {
                url: url@,
                purpose: purpose.deep_view(),
            },
            ToolStep::Navigate { url, clicked } => ToolStepView::Navigate {
                url: url@,
                clicked: *clicked,
            },
            ToolStep::Render(format) => ToolStepView::Render(format@),
        }
    }
}

pub open spec fn missing(key: Seq<char>) -> ToolStepView {
    ToolStepView::Failed("missing '"@ + key + "' argument"@)
}

pub open spec fn no_match(selector: Seq<char>) -> ToolStepView {
    ToolStepView::Failed("no element matches selector '"@ + selector + "'"@)
}

/// The format that a call asks for: PNG, if it asks for none.
pub open spec fn format_asked(arguments: JsonView) -> Seq<char> {
    match arguments.text_field("format"@) {
        Some(format) => format,
        None => "png"@,
    }
}

/// A navigation of the session; without an address there is nowhere to go.
pub open spec fn navigate_step(url: Seq<char>, clicked: bool) -> ToolStepView {
    if url.len() == 0 {
        ToolStepView::Failed("no URL available for navigation"@)
    } else {
        ToolStepView::Navigate { url, clicked }
    }
}

/// What a click that leads nowhere did.
pub open spec fn click_json(action: Seq<char>) -> JsonView {
    empty_object().plus("action"@, json_str(action))
}

pub open spec fn click_step(session: SessionView, arguments: JsonView) -> ToolStepView {
    match arguments.text_field("selector"@) {
        None => missing("selector"@),
        Some(selector) => match selected(session.page.root, selector) {
            None => no_match(selector),
            Some(id) => {
                let action = action_for(session.page, id);
                match target_of(action) {
                    Some(url) => navigate_step(url, true),
                    None => ToolStepView::Content(
                        text_json(
                            json_written(
                                click_json(
                                    if action is Focus || session.focused == Some(id) {
                                        "focused"@
                                    } else {
                                        "none"@
                                    },
                                ),
                            ),
                        ),
                    ),
                }
            },
        },
    }
}

pub open spec fn call_tool_step(session: SessionView, arguments: JsonView) -> ToolStepView {
    match arguments.text_field("name"@) {
        None => missing("name"@),
        Some(name) => {
            let given = match arguments.field("arguments"@) {
                Some(given) => given,
                None => empty_object(),
            };
            match submission_of(session.page, name, given) {
                None => ToolStepView::Failed(
                    "no WebMCP tool named '"@ + name + "' on the current page"@,
                ),
                Some((action_url, query)) => navigate_step(
                    submission_target(action_url, query),
                    false,
                ),
            }
        },
    }
}

pub open spec fn type_step(session: SessionView, arguments: JsonView) -> ToolStepView {
    match arguments.text_field("text"@) {
        None => missing("text"@),
        Some(text) => match arguments.text_field("selector"@) {
            Some(selector) if selected(session.page.root, selector) is None => no_match(selector),
            None if session.focused is None => ToolStepView::Failed(
                "no focused input — click one first, or pass 'selector'"@,
            ),
            _ => ToolStepView::Content(text_json("ok"@)),
        },
    }
}

pub open spec fn dom_step(session: SessionView, arguments: JsonView) -> ToolStepView {
    match arguments.text_field("selector"@) {
        None => ToolStepView::Content(text_json(html_of(session.page.root))),
        Some(selector) => match selected(session.page.root, selector) {
            None => no_match(selector),
            Some(id) => ToolStepView::Content(
                text_json(html_of(node_at(session.page.root, id)->0)),
            ),
        },
    }
}

/// What a call of a tool needs before it is answered.
pub open spec fn tool_step(
    session: SessionView,
    tool: McpTool,
    arguments: JsonView,
) -> ToolStepView {
    match tool {
        McpTool::FetchPage => match arguments.text_field("url"@) {
            None => missing("url"@),
            Some(url) => ToolStepView::Fetch { url, purpose: FetchUseView::Summarize },
        },
        McpTool::RenderScreenshot => match arguments.text_field("url"@) {
            None => missing("url"@),
            Some(url) => ToolStepView::Fetch {
                url,
                purpose: FetchUseView::Render(format_asked(arguments)),
            },
        },
        McpTool::EvalJs => match (arguments.text_field("url"@), arguments.text_field("script"@)) {
            (None, _) => missing("url"@),
            (_, None) => missing("script"@),
            (Some(url), Some(script)) => ToolStepView::Fetch {
                url,
                purpose: FetchUseView::Script(script),
            },
        },
        McpTool::BrowserNavigate => match arguments.text_field("url"@) {
            None => missing("url"@),
            Some(url) => navigate_step(url, false),
        },
        McpTool::BrowserClick => click_step(session, arguments),
        McpTool::BrowserType => type_step(session, arguments),
        McpTool::BrowserGetDom => dom_step(session, arguments),
        McpTool::BrowserScreenshot => ToolStepView::Render(format_asked(arguments)),
        McpTool::BrowserCallTool => call_tool_step(session, arguments),
    }
}

/// The session with the focus on the element that a selector names, if it is
/// asked for.
pub open spec fn focused_by(session: SessionView, selector: Option<Seq<char>>) -> SessionView {
    match selector {
        Some(selector) => match selected(session.page.root, selector) {
            Some(id) => SessionView { focused: Some(id), ..session },
            None => session,
        },
        None => session,
    }
}

/// The session after a call of a tool has come in: a click on a field moves
/// the focus there, text that is typed goes to the focused field.
pub open spec fn tool_session(
    session: SessionView,
    tool: McpTool,
    arguments: JsonView,
) -> SessionView {
    match tool {
        McpTool::BrowserClick => match arguments.text_field("selector"@) {
            Some(selector) => match selected(session.page.root, selector) {
                Some(id) => if action_for(session.page, id) is Focus {
                    SessionView { focused: Some(id), ..session }
                } else {
                    session
                },
                None => session,
            },
            None => session,
        },
        McpTool::BrowserType => if type_step(session, arguments) is Content {
            keyed(
                focused_by(session, arguments.text_field("selector"@)),
                "char"@,
                arguments.text_field("text"@),
                None,
            )
        } else {
            session
        },
        _ => session,
    }
}

fn missing_argument(key: &str) -> (step: ToolStep)
    ensures
        step.deep_view() == missing(key@),
{
    ToolStep::Failed("missing '".to_owned().concat(key).concat("' argument"))
}

fn unmatched(selector: &str) -> (step: ToolStep)
    ensures
        step.deep_view() == no_match(selector@),
{
    ToolStep::Failed("no element matches selector '".to_owned().concat(selector).concat("'"))
}

fn asked_format(arguments: &Json) -> (format: String)
    ensures
        format@ == format_asked(arguments.deep_view()),
{
    match arguments.get_str("format") {
        Some(format) => format.to_owned(),
        None => "png".to_owned(),
    }
}

fn plan_navigation(url: &str, clicked: bool) -> (step: ToolStep)
    ensures
        step.deep_view() == navigate_step(url@, clicked),
{
    if url.is_empty() {
        ToolStep::Failed("no URL available for navigation".to_owned())
    } else {
        ToolStep::Navigate { url: url.to_owned(), clicked }
    }
}

fn browser_click(session: &mut CdpSession, arguments: &Json) -> (step: ToolStep)
    ensures
        step.deep_view() == click_step(old(session).deep_view(), arguments.deep_view()),
        final(session).deep_view() == tool_session(
            old(session).deep_view(),
            McpTool::BrowserClick,
            arguments.deep_view(),
        ),
{
    let selector = match arguments.get_str("selector") {
        Some(selector) => selector,
        None => {
            return missing_argument("selector");
        },
    };
    let id: usize = match find_selector(&session.page.root, selector) {
        Some(id) => id,
        None => {
            return unmatched(selector);
        },
    };
    let action = plan_action_for_node(&session.page, id);
    match action_target(&action) {
        Some(url) => plan_navigation(url.as_str(), true),
        None => {
            if let ClickAction::Focus(id) = action {
                session.focused_node_id = Some(id);
            }
            let on_it = match session.focused_node_id {
                Some(focused) => focused == id,
                None => false,
            };
            let outcome = Json::object().with(
                "action",
                Json::string(
                    if on_it {
                        "focused"
                    } else {
                        "none"
                    },
                ),
            );
            ToolStep::Content(text_content(json_text(&outcome).as_str()))
        },
    }
}

fn browser_type(session: &mut CdpSession, arguments: &Json) -> (step: ToolStep)
    ensures
        step.deep_view() == type_step(old(session).deep_view(), arguments.deep_view()),
        final(session).deep_view() == tool_session(
            old(session).deep_view(),
            McpTool::BrowserType,
            arguments.deep_view(),
        ),
{
    let text = match arguments.get_str("text") {
        Some(text) => text,
        None => {
            return missing_argument("text");
        },
    };
    if let Some(selector) = arguments.get_str("selector") {
        match find_selector(&session.page.root, selector) {
            Some(id) => {
                session.focused_node_id = Some(id);
            },
            None => {
                return unmatched(selector);
            },
        }
    }
    if session.focused_node_id.is_none() {
        return ToolStep::Failed(
            "no focused input — click one first, or pass 'selector'".to_owned(),
        );
    }
    dispatch_key(session, "char", Some(text), None);
    ToolStep::Content(text_content("ok"))
}

fn browser_get_dom(session: &CdpSession, arguments: &Json) -> (step: ToolStep)
    ensures
        step.deep_view() == dom_step(session.deep_view(), arguments.deep_view()),
{
    match arguments.get_str("selector") {
        None => ToolStep::Content(text_content(element_html(&session.page.root).as_str())),
        Some(selector) => match find_selector(&session.page.root, selector) {
            None => unmatched(selector),
            Some(id) => {
                proof {
                    crate::tree::law_selected_is_the_first_named(
                        session.page.deep_view().root,
                        selector@,
                    );
                }
                let html = match find_node(&session.page.root, id) {
                    Some(e) => element_html(e),
                    None => String::new(),
                };
                ToolStep::Content(text_content(html.as_str()))
            },
        },
    }
}

fn browser_call_tool(session: &CdpSession, arguments: &Json) -> (step: ToolStep)
    ensures
        step.deep_view() == call_tool_step(session.deep_view(), arguments.deep_view()),
{
    let name = match arguments.get_str("name") {
        Some(name) => name,
        None => {
            return missing_argument("name");
        },
    };
    let none = Json::object();
    let given = match arguments.get("arguments") {
        Some(given) => given,
        None => &none,
    };
    match build_submission(&session.page, name, given) {
        None => ToolStep::Failed(
            "no WebMCP tool named '".to_owned().concat(name).concat("' on the current page"),
        ),
        Some((action_url, query)) => plan_navigation(
            submission_url(action_url.as_str(), query.as_str()).as_str(),
            false,
        ),
    }
}

/// Takes in a call of a tool: changes the session as the call says, and
/// returns what the call needs before it is answered.
pub fn plan_tool(session: &mut CdpSession, tool: McpTool, arguments: &Json) -> (step: ToolStep)
    ensures
        step.deep_view() == tool_step(old(session).deep_view(), tool, arguments.deep_view()),
        final(session).deep_view() == tool_session(
            old(session).deep_view(),
            tool,
            arguments.deep_view(),
        ),
{
    match tool {
        McpTool::FetchPage => match arguments.get_str("url") {
            None => missing_argument("url"),
            Some(url) => ToolStep::Fetch { url: url.to_owned(), purpose: FetchUse::Summarize },
        },
        McpTool::RenderScreenshot => match arguments.get_str("url") {
            None => missing_argument("url"),
            Some(url) => ToolStep::Fetch {
                url: url.to_owned(),
                purpose: FetchUse::Render(asked_format(arguments)),
            },
        },
        McpTool::EvalJs => match arguments.get_str("url") {
            None => missing_argument("url"),
            Some(url) => match arguments.get_str("script") {
                None => missing_argument("script"),
                Some(script) => ToolStep::Fetch {
                    url: url.to_owned(),
                    purpose: FetchUse::Script(script.to_owned()),
                },
            },
        },
        McpTool::BrowserNavigate => match arguments.get_str("url") {
            None => missing_argument("url"),
            Some(url) => plan_navigation(url, false),
        },
        McpTool::BrowserClick => browser_click(session, arguments),
        McpTool::BrowserType => browser_type(session, arguments),
        McpTool::BrowserGetDom => browser_get_dom(session, arguments),
        McpTool::BrowserScreenshot => ToolStep::Render(asked_format(arguments)),
        McpTool::BrowserCallTool => browser_call_tool(session, arguments),
    }
}

/// The result of a call: its content, or the tool's error.
pub open spec fn result_json(outcome: Result<JsonView, Seq<char>>) -> JsonView {
    match outcome {
        Ok(content) => empty_object().plus("content"@, JsonView::Array(seq![content])).plus(
            "isError"@,
            JsonView::Bool(false),
        ),
        Err(message) => empty_object().plus(
            "content"@,
            JsonView::Array(seq![text_json(message)]),
        ).plus("isError"@, JsonView::Bool(true)),
    }
}

/// The result of a call with this content.
pub fn tool_result(content: Json) -> (result: Json)
    ensures
        result.deep_view() == result_json(Ok(content.deep_view())),
{
    let mut items: Vec<Json> = Vec::new();
    items.push(content);
    assert(items.deep_view() =~= seq![content.deep_view()]);
    Json::object().with("content", Json::array(items)).with("isError", Json::Bool(false))
}

/// The result of a call that failed for this reason.
pub fn tool_error(message: &str) -> (result: Json)
    ensures
        result.deep_view() == result_json(Err(message@)),
{
    let mut items: Vec<Json> = Vec::new();
    items.push(text_content(message));
    assert(items.deep_view() =~= seq![text_json(message@)]);
    Json::object().with("content", Json::array(items)).with("isError", Json::Bool(true))
}

/// An image as the content of a result.
pub open spec fn image_json(png: Seq<u8>) -> JsonView {
    empty_object().plus("type"@, json_str("image"@)).plus("data"@, json_str(base64_text(png))).plus(
        "mimeType"@,
        json_str("image/png"@),
    )
}

/// An image as the content of a result.
pub fn image_content(png: &Vec<u8>) -> (content: Json)
    ensures
        content.deep_view() == image_json(png@),
{
    Json::object().with("type", Json::string("image")).with("data", Json::Str(to_base64(png))).with(
        "mimeType",
        Json::string("image/png"),
    )
}

/// Whether a result is a PNG image of a page.
pub open spec fn shows_image(page: PageView, result: JsonView, png: Seq<u8>) -> bool {
    &&& is_png_of(page, RENDER_WIDTH, png)
    &&& result == result_json(Ok(image_json(png)))
}

/// Whether a result is the one of a call that renders a page: SVG as text,
/// anything else as a PNG image, and the reason where there is none.
pub open spec fn is_render_result(page: PageView, format: Seq<char>, result: JsonView) -> bool {
    if format == "svg"@ {
        result == result_json(
            if is_too_high(page, RENDER_WIDTH) {
                Err(RasterError::TooHigh.text())
            } else {
                Ok(text_json(svg_of(page.root, RENDER_WIDTH as int)))
            },
        )
    } else if is_rendered(page, RENDER_WIDTH) {
        exists|png: Seq<u8>| #[trigger] shows_image(page, result, png)
    } else {
        exists|error: RasterError|
            is_refused(page, RENDER_WIDTH, error) && result == result_json(
                Err(#[trigger] error.text()),
            )
    }
}

/// The result of a call that renders a page: SVG as text, anything else as a
/// PNG image.
pub fn render_result(page: &Page, format: &str) -> (result: Json)
    ensures
        is_render_result(page.deep_view(), format@, result.deep_view()),
{
    if same_text(format, "svg") {
        return match render_svg(page, RENDER_WIDTH) {
            Some(svg) => tool_result(text_content(svg.as_str())),
            None => tool_error(RasterError::TooHigh.message().as_str()),
        };
    }
    match render_png(page, RENDER_WIDTH) {
        Ok(png) => {
            let result = tool_result(image_content(&png));
            assert(shows_image(page.deep_view(), result.deep_view(), png@));
            result
        },
        Err(error) => {
            let result = tool_error(error.message().as_str());
            assert(result.deep_view() == result_json(Err(error.text())));
            result
        },
    }
}

/// What a fetched page is used for, once it is there.
#[derive(Debug)]
pub enum FetchStep {
    /// This is the result of the call.
    Result(Json),
    /// The script is to be run on the page.
    Evaluate { page: Page, script: String },
}

/// Goes on with a call whose page was fetched, or could not be.
pub fn finish_fetch(purpose: FetchUse, fetched: Result<Page, String>) -> (step: FetchStep)
    ensures
        match (purpose, fetched) {
            (_, Err(message)) => step matches FetchStep::Result(result) && result.deep_view()
                == result_json(Err(message@)),
            (FetchUse::Summarize, Ok(page)) => step matches FetchStep::Result(result)
                && result.deep_view() == result_json(
                Ok(text_json(json_written(summary_of(page.deep_view())))),
            ),
            (FetchUse::Render(format), Ok(page)) => step matches FetchStep::Result(result)
                && is_render_result(page.deep_view(), format@, result.deep_view()),
            (FetchUse::Script(script), Ok(page)) => step == (FetchStep::Evaluate { page, script }),
        },
{
    match fetched {
        Err(message) => FetchStep::Result(tool_error(message.as_str())),
        Ok(page) => match purpose {
            FetchUse::Summarize => FetchStep::Result(
                tool_result(text_content(json_text(&page_summary(&page)).as_str())),
            ),
            FetchUse::Render(format) => FetchStep::Result(render_result(&page, format.as_str())),
            FetchUse::Script(script) => FetchStep::Evaluate { page, script },
        },
    }
}

/// The result of a call whose script was run.
pub fn finish_script(outcome: Result<String, String>) -> (result: Json)
    ensures
        result.deep_view() == result_json(
            match outcome {
                Ok(value) => Ok(text_json(value@)),
                Err(message) => Err(message@),
            },
        ),
{
    match outcome {
        Ok(value) => tool_result(text_content(value.as_str())),
        Err(message) => tool_error(message.as_str()),
    }
}

/// What is answered to a call that has led to a page.
pub open spec fn arrival_json(page: PageView, clicked: bool) -> JsonView {
    if clicked {
        empty_object().plus("action"@, json_str("navigated"@)).plus("page"@, summary_of(page))
    } else {
        summary_of(page)
    }
}

/// Ends a navigation of the session: the page that was fetched takes the
/// place of the session's and its summary is answered, or, where fetching
/// failed, the session stays as it is and the error is answered.
pub fn finish_tool_navigation(
    session: &mut CdpSession,
    clicked: bool,
    fetched: Result<Page, String>,
) -> (result: Json)
    ensures
        match fetched {
            Ok(page) => {
                &&& result.deep_view() == result_json(
                    Ok(text_json(json_written(arrival_json(page.deep_view(), clicked)))),
                )
                &&& final(session).deep_view() == (SessionView {
                    page: page.deep_view(),
                    focused: None,
                })
            },
            Err(message) => {
                &&& result.deep_view() == result_json(Err(message@))
                &&& *final(session) == *old(session)
            },
        },
{
    match fetched {
        Ok(page) => {
            let summary = page_summary(&page);
            session.apply_navigation(page);
            let arrival = if clicked {
                Json::object().with("action", Json::string("navigated")).with("page", summary)
            } else {
                summary
            };
            tool_result(text_content(json_text(&arrival).as_str()))
        },
        Err(message) => tool_error(message.as_str()),
    }
}


/// A parameter of a type.
pub open spec fn typed(kind: Seq<char>) -> JsonView {
    empty_object().plus("type"@, json_str(kind))
}

/// A parameter of a type, with a description.
pub open spec fn described(kind: Seq<char>, description: Seq<char>) -> JsonView {
    typed(kind).plus("description"@, json_str(description))
}

/// The parameter that chooses between PNG and SVG.
pub open spec fn format_param() -> JsonView {
    typed("string"@).plus("enum"@, JsonView::Array(seq![json_str("png"@), json_str("svg"@)]))
}

/// A schema of parameters.
pub open spec fn parameters(properties: JsonView) -> JsonView {
    typed("object"@).plus("properties"@, properties)
}

/// How a tool is described.
pub open spec fn defined(
    name: Seq<char>,
    description: Seq<char>,
    input_schema: JsonView,
) -> JsonView {
    empty_object().plus("name"@, json_str(name)).plus("description"@, json_str(description)).plus(
        "inputSchema"@,
        input_schema,
    )
}

fn typed_json(kind: &str) -> (json: Json)
    ensures
        json.deep_view() == typed(kind@),
{
    Json::object().with("type", Json::string(kind))
}

fn described_json(kind: &str, description: &str) -> (json: Json)
    ensures
        json.deep_view() == described(kind@, description@),
{
    typed_json(kind).with("description", Json::string(description))
}

fn one(first: &str) -> (json: Json)
    ensures
        json.deep_view() == JsonView::Array(seq![json_str(first@)]),
{
    let mut items: Vec<Json> = Vec::new();
    items.push(Json::string(first));
    assert(items.deep_view() =~= seq![json_str(first@)]);
    Json::array(items)
}

fn two(first: &str, second: &str) -> (json: Json)
    ensures
        json.deep_view() == JsonView::Array(seq![json_str(first@), json_str(second@)]),
{
    let mut items: Vec<Json> = Vec::new();
    items.push(Json::string(first));
    items.push(Json::string(second));
    assert(items.deep_view() =~= seq![json_str(first@), json_str(second@)]);
    Json::array(items)
}

fn format_json() -> (json: Json)
    ensures
        json.deep_view() == format_param(),
{
    typed_json("string").with("enum", two("png", "svg"))
}

fn parameters_json(properties: Json) -> (json: Json)
    ensures
        json.deep_view() == parameters(properties.deep_view()),
{
    typed_json("object").with("properties", properties)
}

fn define(name: &str, description: &str, input_schema: Json) -> (json: Json)
    ensures
        json.deep_view() == defined(name@, description@, input_schema.deep_view()),
{
    Json::object().with("name", Json::string(name)).with(
        "description",
        Json::string(description),
    ).with("inputSchema", input_schema)
}

pub open spec fn fetch_page_definition() -> JsonView {
    let properties = empty_object().plus("url"@, described("string"@, "The URL to fetch"@));
    defined(
        "fetch_page"@,
        "Fetch a URL and return a lightweight summary (final URL, title, extracted text, links). Does not execute the page's own JavaScript and does not affect the persistent browser_* session."@,
        parameters(properties).plus("required"@, JsonView::Array(seq![json_str("url"@)])),
    )
}

pub open spec fn render_screenshot_definition() -> JsonView {
    let first = empty_object().plus("url"@, typed("string"@));
    let properties = first.plus(
        "format"@,
        format_param().plus("description"@, json_str("Defaults to png"@)),
    );
    defined(
        "render_screenshot"@,
        "Fetch a URL and render it to a PNG image or SVG markup. This is a simplified, text-driven rendering (no CSS, no JavaScript-rendered content), not pixel-accurate to a real browser."@,
        parameters(properties).plus("required"@, JsonView::Array(seq![json_str("url"@)])),
    )
}

pub open spec fn eval_js_definition() -> JsonView {
    let first = empty_object().plus("url"@, typed("string"@));
    let properties = first.plus("script"@, typed("string"@));
    defined(
        "eval_js"@,
        "Fetch a URL and evaluate a JavaScript expression against a read-only snapshot of its document (document.title, document.body.innerText, and a limited document.querySelector for the first h1/h2/h3/p/a/button). Runs in an isolated process with no network, filesystem, or real-DOM access, and cannot affect the page."@,
        parameters(properties).plus(
            "required"@,
            JsonView::Array(seq![json_str("url"@), json_str("script"@)]),
        ),
    )
}

pub open spec fn browser_navigate_definition() -> JsonView {
    let properties = empty_object().plus("url"@, typed("string"@));
    defined(
        "browser_navigate"@,
        "Navigate the persistent browsing session to a URL, following redirects and carrying cookies from prior navigations in this same session. Returns a page summary."@,
        parameters(properties).plus("required"@, JsonView::Array(seq![json_str("url"@)])),
    )
}

pub open spec fn browser_click_definition() -> JsonView {
    let properties = empty_object().plus("selector"@, typed("string"@));
    defined(
        "browser_click"@,
        "Click the first element in the current session page matching a CSS-like selector (tag name). Clicking <a href> navigates; clicking <input>/<textarea> focuses it for browser_type; clicking a submit button or input[type=submit] submits its enclosing form (GET only, no request body) and navigates. This does not run onclick handlers or any page JavaScript."@,
        parameters(properties).plus("required"@, JsonView::Array(seq![json_str("selector"@)])),
    )
}

pub open spec fn browser_type_definition() -> JsonView {
    let first = empty_object().plus("text"@, typed("string"@));
    let properties = first.plus(
        "selector"@,
        described("string"@, "Optional: focus this element before typing"@),
    );
    defined(
        "browser_type"@,
        "Type text into the currently focused input/textarea in the session (focus one first with browser_click, or pass 'selector' here to focus it in the same call)."@,
        parameters(properties).plus("required"@, JsonView::Array(seq![json_str("text"@)])),
    )
}

pub open spec fn browser_get_dom_definition() -> JsonView {
    let properties = empty_object().plus("selector"@, typed("string"@));
    defined(
        "browser_get_dom"@,
        "Return the outer HTML of the current session page, or of the first element matching a selector."@,
        parameters(properties),
    )
}

pub open spec fn browser_screenshot_definition() -> JsonView {
    let properties = empty_object().plus("format"@, format_param());
    defined(
        "browser_screenshot"@,
        "Render the current session page (as last navigated by browser_navigate) to a PNG image or SVG markup."@,
        parameters(properties),
    )
}

pub open spec fn browser_call_tool_definition() -> JsonView {
    let first = empty_object().plus("name"@, described("string"@, "The tool's toolname"@));
    let properties = first.plus(
        "arguments"@,
        described("object"@, "Values keyed by each field's name attribute"@),
    );
    defined(
        "browser_call_tool"@,
        "Call a WebMCP tool declared on the current session page via the toolname/tooldescription/toolparamdescription HTML attributes on a <form> (see https://github.com/webmachinelearning/webmcp/blob/main/declarative-api-explainer.md). Fills the form's fields from 'arguments' (falling back to each field's current value when omitted) and submits it: GET only, no request body — the same limitation as browser_click's form submit. Only the declarative HTML-attribute API is supported, not the imperative navigator.modelContext JavaScript API (no page JavaScript runs). Discoverable tools are listed under 'tools' in any page summary returned by fetch_page, browser_navigate, or browser_click."@,
        parameters(properties).plus("required"@, JsonView::Array(seq![json_str("name"@)])),
    )
}

fn define_fetch_page() -> (json: Json)
    ensures
        json.deep_view() == fetch_page_definition(),
{
    let properties = Json::object().with("url", described_json("string", "The URL to fetch"));
    define(
        "fetch_page",
        "Fetch a URL and return a lightweight summary (final URL, title, extracted text, links). Does not execute the page's own JavaScript and does not affect the persistent browser_* session.",
        parameters_json(properties).with("required", one("url")),
    )
}

fn define_render_screenshot() -> (json: Json)
    ensures
        json.deep_view() == render_screenshot_definition(),
{
    let first = Json::object().with("url", typed_json("string"));
    let properties = first.with(
        "format",
        format_json().with("description", Json::string("Defaults to png")),
    );
    define(
        "render_screenshot",
        "Fetch a URL and render it to a PNG image or SVG markup. This is a simplified, text-driven rendering (no CSS, no JavaScript-rendered content), not pixel-accurate to a real browser.",
        parameters_json(properties).with("required", one("url")),
    )
}

fn define_eval_js() -> (json: Json)
    ensures
        json.deep_view() == eval_js_definition(),
{
    let first = Json::object().with("url", typed_json("string"));
    let properties = first.with("script", typed_json("string"));
    define(
        "eval_js",
        "Fetch a URL and evaluate a JavaScript expression against a read-only snapshot of its document (document.title, document.body.innerText, and a limited document.querySelector for the first h1/h2/h3/p/a/button). Runs in an isolated process with no network, filesystem, or real-DOM access, and cannot affect the page.",
        parameters_json(properties).with("required", two("url", "script")),
    )
}

fn define_browser_navigate() -> (json: Json)
    ensures
        json.deep_view() == browser_navigate_definition(),
{
    let properties = Json::object().with("url", typed_json("string"));
    define(
        "browser_navigate",
        "Navigate the persistent browsing session to a URL, following redirects and carrying cookies from prior navigations in this same session. Returns a page summary.",
        parameters_json(properties).with("required", one("url")),
    )
}

fn define_browser_click() -> (json: Json)
    ensures
        json.deep_view() == browser_click_definition(),
{
    let properties = Json::object().with("selector", typed_json("string"));
    define(
        "browser_click",
        "Click the first element in the current session page matching a CSS-like selector (tag name). Clicking <a href> navigates; clicking <input>/<textarea> focuses it for browser_type; clicking a submit button or input[type=submit] submits its enclosing form (GET only, no request body) and navigates. This does not run onclick handlers or any page JavaScript.",
        parameters_json(properties).with("required", one("selector")),
    )
}

fn define_browser_type() -> (json: Json)
    ensures
        json.deep_view() == browser_type_definition(),
{
    let first = Json::object().with("text", typed_json("string"));
    let properties = first.with(
        "selector",
        described_json("string", "Optional: focus this element before typing"),
    );
    define(
        "browser_type",
        "Type text into the currently focused input/textarea in the session (focus one first with browser_click, or pass 'selector' here to focus it in the same call).",
        parameters_json(properties).with("required", one("text")),
    )
}

fn define_browser_get_dom() -> (json: Json)
    ensures
        json.deep_view() == browser_get_dom_definition(),
{
    let properties = Json::object().with("selector", typed_json("string"));
    define(
        "browser_get_dom",
        "Return the outer HTML of the current session page, or of the first element matching a selector.",
        parameters_json(properties),
    )
}

fn define_browser_screenshot() -> (json: Json)
    ensures
        json.deep_view() == browser_screenshot_definition(),
{
    let properties = Json::object().with("format", format_json());
    define(
        "browser_screenshot",
        "Render the current session page (as last navigated by browser_navigate) to a PNG image or SVG markup.",
        parameters_json(properties),
    )
}

fn define_browser_call_tool() -> (json: Json)
    ensures
        json.deep_view() == browser_call_tool_definition(),
{
    let first = Json::object().with("name", described_json("string", "The tool's toolname"));
    let properties = first.with(
        "arguments",
        described_json("object", "Values keyed by each field's name attribute"),
    );
    define(
        "browser_call_tool",
        "Call a WebMCP tool declared on the current session page via the toolname/tooldescription/toolparamdescription HTML attributes on a <form> (see https://github.com/webmachinelearning/webmcp/blob/main/declarative-api-explainer.md). Fills the form's fields from 'arguments' (falling back to each field's current value when omitted) and submits it: GET only, no request body — the same limitation as browser_click's form submit. Only the declarative HTML-attribute API is supported, not the imperative navigator.modelContext JavaScript API (no page JavaScript runs). Discoverable tools are listed under 'tools' in any page summary returned by fetch_page, browser_navigate, or browser_click.",
        parameters_json(properties).with("required", one("name")),
    )
}

/// The tools as they are listed.
pub open spec fn definitions() -> Seq<JsonView> {
    seq![
        fetch_page_definition(),
        render_screenshot_definition(),
        eval_js_definition(),
        browser_navigate_definition(),
        browser_click_definition(),
        browser_type_definition(),
        browser_get_dom_definition(),
        browser_screenshot_definition(),
        browser_call_tool_definition(),
    ]
}

/// The tools as they are listed.
pub fn mcp_tool_definitions() -> (tools: Vec<Json>)
    ensures
        tools.deep_view() == definitions(),
{
    let mut tools: Vec<Json> = Vec::new();
    tools.push(define_fetch_page());
    tools.push(define_render_screenshot());
    tools.push(define_eval_js());
    tools.push(define_browser_navigate());
    tools.push(define_browser_click());
    tools.push(define_browser_type());
    tools.push(define_browser_get_dom());
    tools.push(define_browser_screenshot());
    tools.push(define_browser_call_tool());
    assert(tools.deep_view() =~= definitions());
    tools
}

/// What a request needs before it is answered.
#[derive(Debug)]
pub enum RpcStep {
    /// Nothing: this is the result.
    Result(Json),
    /// Nothing: this is the error.
    Error { code: i64, message: String },
    /// A call of a tool.
    Call { tool: McpTool, arguments: Json },
}

/// What a request needs before it is answered, as a mathematical value.
#[verifier::ext_equal]
pub enum RpcStepView {
    Result(JsonView),
    Error { code: int, message: Seq<char> },
    Call { tool: McpTool, arguments: JsonView },
}

impl DeepView for RpcStep {
    type V = RpcStepView;

    open spec fn deep_view(&self) -> RpcStepView {
        match self {
            RpcStep::Result(result) => RpcStepView::Result(result.deep_view()),
            RpcStep::Error { code, message } => RpcStepView::Error {
                code: *code as int,
                message: message@,
            },
            RpcStep::Call { tool, arguments } => RpcStepView::Call {
                tool: *tool,
                arguments: arguments.deep_view(),
            },
        }
    }
}

/// What the server says of itself.
pub open spec fn server_json() -> JsonView {
    empty_object().plus("protocolVersion"@, json_str("2024-11-05"@)).plus(
        "capabilities"@,
        empty_object().plus("tools"@, empty_object()),
    ).plus(
        "serverInfo"@,
        empty_object().plus("name"@, json_str("kite-lite"@)).plus("version"@, json_str("0.1.0"@)),
    )
}

/// What a call of a tool by name needs.
pub open spec fn call_of(params: JsonView) -> RpcStepView {
    match params.text_field("name"@) {
        None => RpcStepView::Error { code: -32602, message: "missing tool name"@ },
        Some(name) => match tool_named(name) {
            None => RpcStepView::Error { code: -32602, message: "unknown tool: "@ + name },
            Some(tool) => RpcStepView::Call {
                tool,
                arguments: match params.field("arguments"@) {
                    Some(arguments) => arguments,
                    None => empty_object(),
                },
            },
        },
    }
}

/// What a request needs before it is answered.
pub open spec fn dispatch_of(method: Seq<char>, params: JsonView) -> RpcStepView {
    if method == "initialize"@ {
        RpcStepView::Result(server_json())
    } else if method == "tools/list"@ {
        RpcStepView::Result(empty_object().plus("tools"@, JsonView::Array(definitions())))
    } else if method == "tools/call"@ {
        call_of(params)
    } else if method == "ping"@ {
        RpcStepView::Result(empty_object())
    } else {
        RpcStepView::Error { code: -32601, message: "method not found: "@ + method }
    }
}

fn mcp_tool_call(params: &Json) -> (step: RpcStep)
    ensures
        step.deep_view() == call_of(params.deep_view()),
{
    match params.get_str("name") {
        None => RpcStep::Error { code: -32602, message: "missing tool name".to_owned() },
        Some(name) => match mcp_tool(name) {
            None => RpcStep::Error {
                code: -32602,
                message: "unknown tool: ".to_owned().concat(name),
            },
            Some(tool) => RpcStep::Call {
                tool,
                arguments: match params.get("arguments") {
                    Some(arguments) => arguments.clone(),
                    None => Json::object(),
                },
            },
        },
    }
}

/// What a request needs before it is answered. A request without parameters
/// is like one with null.
pub fn mcp_dispatch(method: &str, params: &Json) -> (step: RpcStep)
    ensures
        step.deep_view() == dispatch_of(method@, params.deep_view()),
{
    if same_text(method, "initialize") {
        RpcStep::Result(
            Json::object().with("protocolVersion", Json::string("2024-11-05")).with(
                "capabilities",
                Json::object().with("tools", Json::object()),
            ).with(
                "serverInfo",
                Json::object().with("name", Json::string("kite-lite")).with(
                    "version",
                    Json::string("0.1.0"),
                ),
            ),
        )
    } else if same_text(method, "tools/list") {
        RpcStep::Result(Json::object().with("tools", Json::array(mcp_tool_definitions())))
    } else if same_text(method, "tools/call") {
        mcp_tool_call(params)
    } else if same_text(method, "ping") {
        RpcStep::Result(Json::object())
    } else {
        RpcStep::Error { code: -32601, message: "method not found: ".to_owned().concat(method) }
    }
}

/// A request that is to be answered.
#[derive(Debug)]
pub struct McpRequest {
    pub id: Json,
    pub method: String,
    pub params: Json,
}

/// Whether this is the request that a message is: one with an id is a
/// request, one without a notification.
pub open spec fn is_message(message: JsonView, request: Option<McpRequest>) -> bool {
    match request {
        Some(request) => {
            &&& message.field("id"@) == Some(request.id.deep_view())
            &&& request.method@ == text_or_empty(message.text_field("method"@))
            &&& request.params.deep_view() == crate::cdp::params_of(message.field("params"@))
        },
        None => message.field("id"@) is None,
    }
}

/// Reads a message: a request, if it has an id. One without is a
/// notification, which is never answered.
pub fn read_message(message: &Json) -> (request: Option<McpRequest>)
    ensures
        is_message(message.deep_view(), request),
{
    match message.get("id") {
        None => None,
        Some(id) => Some(
            McpRequest {
                id: id.clone(),
                method: text_param(message, "method").to_owned(),
                params: match message.get("params") {
                    Some(params) => params.clone(),
                    None => Json::Null,
                },
            },
        ),
    }
}

/// Reads a line: the request that its message is, `None` for a notification
/// and for a blank line, an error, in words, where it is no JSON.
pub fn receive_message(line: &str) -> (request: Result<Option<McpRequest>, String>)
    ensures
        all_white_space(line@) ==> request == Ok::<Option<McpRequest>, String>(None),
        !all_white_space(line@) ==> match json_parsed(line@) {
            Ok(message) => request is Ok && is_message(message, request->Ok_0),
            Err(error) => request is Err && request->Err_0@ == error,
        },
{
    if is_blank(line) {
        return Ok(None);
    }
    match parse_json(line) {
        Ok(message) => Ok(read_message(&message)),
        Err(error) => Err(error),
    }
}

/// The answer to a request, with the request's id.
pub open spec fn answer_json(id: JsonView, outcome: Result<JsonView, (i64, Seq<char>)>) -> JsonView {
    let head = empty_object().plus("jsonrpc"@, json_str("2.0"@)).plus("id"@, id);
    match outcome {
        Ok(result) => head.plus("result"@, result),
        Err((code, message)) => head.plus(
            "error"@,
            empty_object().plus("code"@, JsonView::Negative(code)).plus(
                "message"@,
                json_str(message),
            ),
        ),
    }
}

/// The answer to a request that came to a result.
pub fn answer_result(id: &Json, result: Json) -> (answer: Json)
    ensures
        answer.deep_view() == answer_json(id.deep_view(), Ok(result.deep_view())),
{
    Json::object().with("jsonrpc", Json::string("2.0")).with("id", id.clone()).with(
        "result",
        result,
    )
}

/// The answer to a request that is an error.
pub fn answer_error(id: &Json, code: i64, message: &str) -> (answer: Json)
    ensures
        answer.deep_view() == answer_json(id.deep_view(), Err((code, message@))),
{
    Json::object().with("jsonrpc", Json::string("2.0")).with("id", id.clone()).with(
        "error",
        Json::object().with("code", Json::Negative(code)).with("message", Json::string(message)),
    )
}

/// A call of a tool is an error of the protocol if and only if it names no
/// tool: whatever goes wrong in a tool is part of the tool's result.
pub proof fn law_tool_errors_are_results(params: JsonView)
    ensures
        call_of(params) is Call <==> params.text_field("name"@) is Some && tool_named(
            params.text_field("name"@)->0,
        ) is Some,
        !(call_of(params) is Call) ==> call_of(params) is Error,
{
}

/// The tools that fetch a page for one call leave the session as it is.
pub proof fn law_fetching_leaves_the_session(
    session: SessionView,
    tool: McpTool,
    arguments: JsonView,
)
    requires
        tool == McpTool::FetchPage || tool == McpTool::RenderScreenshot || tool == McpTool::EvalJs,
    ensures
        tool_session(session, tool, arguments) == session,
        !(tool_step(session, tool, arguments) is Navigate),
{
}

/// A call that fails leaves the session as it is.
pub proof fn law_failing_changes_nothing(
    session: SessionView,
    tool: McpTool,
    arguments: JsonView,
)
    requires
        tool_step(session, tool, arguments) is Failed,
    ensures
        tool_session(session, tool, arguments) == session,
{
}

/// Typing with a selector is clicking the field that it names and typing
/// then.
pub proof fn law_typing_with_a_selector_clicks_first(
    session: SessionView,
    selector: Seq<char>,
    text: Seq<char>,
)
    requires
        selected(session.page.root, selector) is Some,
        action_for(session.page, selected(session.page.root, selector)->0) is Focus,
    ensures
        ({
            let click = empty_object().plus("selector"@, json_str(selector));
            let at_once = empty_object().plus("text"@, json_str(text)).plus(
                "selector"@,
                json_str(selector),
            );
            let then = empty_object().plus("text"@, json_str(text));
            let clicked = tool_session(session, McpTool::BrowserClick, click);
            tool_session(session, McpTool::BrowserType, at_once) == tool_session(
                clicked,
                McpTool::BrowserType,
                then,
            )
        }),
{
    reveal_strlit("text");
    reveal_strlit("selector");
    assert("text"@.len() != "selector"@.len());
    let click = Seq::<(Seq<char>, JsonView)>::empty().push(("selector"@, json_str(selector)));
    let then = Seq::<(Seq<char>, JsonView)>::empty().push(("text"@, json_str(text)));
    let at_once = then.push(("selector"@, json_str(selector)));
    lemma_first_where_is(click, json_key_test("selector"@), 0);
    lemma_first_where_is(then, json_key_test("text"@), 0);
    lemma_first_where_is(then, json_key_test("selector"@), 1);
    lemma_first_where_is(at_once, json_key_test("text"@), 0);
    lemma_first_where_is(at_once, json_key_test("selector"@), 1);
}

proof fn lemma_tool_names()
    ensures
        "fetch_page"@ != "render_screenshot"@,
        "fetch_page"@ != "eval_js"@,
        "fetch_page"@ != "browser_navigate"@,
        "fetch_page"@ != "browser_click"@,
        "fetch_page"@ != "browser_type"@,
        "fetch_page"@ != "browser_get_dom"@,
        "fetch_page"@ != "browser_screenshot"@,
        "fetch_page"@ != "browser_call_tool"@,
        "render_screenshot"@ != "eval_js"@,
        "render_screenshot"@ != "browser_navigate"@,
        "render_screenshot"@ != "browser_click"@,
        "render_screenshot"@ != "browser_type"@,
        "render_screenshot"@ != "browser_get_dom"@,
        "render_screenshot"@ != "browser_screenshot"@,
        "render_screenshot"@ != "browser_call_tool"@,
        "eval_js"@ != "browser_navigate"@,
        "eval_js"@ != "browser_click"@,
        "eval_js"@ != "browser_type"@,
        "eval_js"@ != "browser_get_dom"@,
        "eval_js"@ != "browser_screenshot"@,
        "eval_js"@ != "browser_call_tool"@,
        "browser_navigate"@ != "browser_click"@,
        "browser_navigate"@ != "browser_type"@,
        "browser_navigate"@ != "browser_get_dom"@,
        "browser_navigate"@ != "browser_screenshot"@,
        "browser_navigate"@ != "browser_call_tool"@,
        "browser_click"@ != "browser_type"@,
        "browser_click"@ != "browser_get_dom"@,
        "browser_click"@ != "browser_screenshot"@,
        "browser_click"@ != "browser_call_tool"@,
        "browser_type"@ != "browser_get_dom"@,
        "browser_type"@ != "browser_screenshot"@,
        "browser_type"@ != "browser_call_tool"@,
        "browser_get_dom"@ != "browser_screenshot"@,
        "browser_get_dom"@ != "browser_call_tool"@,
        "browser_screenshot"@ != "browser_call_tool"@,
{
    reveal_strlit("fetch_page");
    reveal_strlit("render_screenshot");
    reveal_strlit("eval_js");
    reveal_strlit("browser_navigate");
    reveal_strlit("browser_click");
    reveal_strlit("browser_type");
    reveal_strlit("browser_get_dom");
    reveal_strlit("browser_screenshot");
    reveal_strlit("browser_call_tool");
    assert("fetch_page"@.len() == 10);
    assert("render_screenshot"@.len() == 17);
    assert("eval_js"@.len() == 7);
    assert("browser_navigate"@.len() == 16);
    assert("browser_click"@.len() == 13);
    assert("browser_type"@.len() == 12);
    assert("browser_get_dom"@.len() == 15);
    assert("browser_screenshot"@.len() == 18);
    assert("browser_call_tool"@.len() == 17);
    assert("render_screenshot"@[0] == 'r');
    assert("browser_call_tool"@[0] == 'b');
}

/// Each tool is named by one name, and by no other.
pub proof fn law_tools_go_by_name(name: Seq<char>)
    ensures
        tool_named(name) == Some(McpTool::FetchPage) <==> name == "fetch_page"@,
        tool_named(name) == Some(McpTool::RenderScreenshot) <==> name == "render_screenshot"@,
        tool_named(name) == Some(McpTool::EvalJs) <==> name == "eval_js"@,
        tool_named(name) == Some(McpTool::BrowserNavigate) <==> name == "browser_navigate"@,
        tool_named(name) == Some(McpTool::BrowserClick) <==> name == "browser_click"@,
        tool_named(name) == Some(McpTool::BrowserType) <==> name == "browser_type"@,
        tool_named(name) == Some(McpTool::BrowserGetDom) <==> name == "browser_get_dom"@,
        tool_named(name) == Some(McpTool::BrowserScreenshot) <==> name == "browser_screenshot"@,
        tool_named(name) == Some(McpTool::BrowserCallTool) <==> name == "browser_call_tool"@,
{
    lemma_tool_names();
}

proof fn lemma_definition_keys()
    ensures
        "name"@ != "description"@,
        "name"@ != "inputSchema"@,
        "name"@ != "type"@,
        "name"@ != "properties"@,
        "name"@ != "required"@,
        "description"@ != "inputSchema"@,
        "description"@ != "type"@,
        "description"@ != "properties"@,
        "description"@ != "required"@,
        "inputSchema"@ != "type"@,
        "inputSchema"@ != "properties"@,
        "inputSchema"@ != "required"@,
        "type"@ != "properties"@,
        "type"@ != "required"@,
        "properties"@ != "required"@,
{
    reveal_strlit("name");
    reveal_strlit("description");
    reveal_strlit("inputSchema");
    reveal_strlit("type");
    reveal_strlit("properties");
    reveal_strlit("required");
    assert("name"@.len() == 4);
    assert("description"@.len() == 11);
    assert("inputSchema"@.len() == 11);
    assert("type"@.len() == 4);
    assert("properties"@.len() == 10);
    assert("required"@.len() == 8);
    assert("name"@[0] == 'n');
    assert("type"@[0] == 't');
    assert("description"@[0] == 'd');
    assert("inputSchema"@[0] == 'i');
}

/// The tools that are listed are those that there are, each under the name
/// that it is called by, and with the parameters that it cannot do without.
pub proof fn law_every_tool_is_listed()
    ensures
        definitions().len() == 9,
        definitions()[0].text_field("name"@) == Some("fetch_page"@),
        definitions()[1].text_field("name"@) == Some("render_screenshot"@),
        definitions()[2].text_field("name"@) == Some("eval_js"@),
        definitions()[3].text_field("name"@) == Some("browser_navigate"@),
        definitions()[4].text_field("name"@) == Some("browser_click"@),
        definitions()[5].text_field("name"@) == Some("browser_type"@),
        definitions()[6].text_field("name"@) == Some("browser_get_dom"@),
        definitions()[7].text_field("name"@) == Some("browser_screenshot"@),
        definitions()[8].text_field("name"@) == Some("browser_call_tool"@),
        definitions()[0].field("inputSchema"@)->0.field("required"@) == Some(
            JsonView::Array(seq![JsonView::Str("url"@)]),
        ),
        definitions()[1].field("inputSchema"@)->0.field("required"@) == Some(
            JsonView::Array(seq![JsonView::Str("url"@)]),
        ),
        definitions()[2].field("inputSchema"@)->0.field("required"@) == Some(
            JsonView::Array(seq![JsonView::Str("url"@), JsonView::Str("script"@)]),
        ),
        definitions()[3].field("inputSchema"@)->0.field("required"@) == Some(
            JsonView::Array(seq![JsonView::Str("url"@)]),
        ),
        definitions()[4].field("inputSchema"@)->0.field("required"@) == Some(
            JsonView::Array(seq![JsonView::Str("selector"@)]),
        ),
        definitions()[5].field("inputSchema"@)->0.field("required"@) == Some(
            JsonView::Array(seq![JsonView::Str("text"@)]),
        ),
        definitions()[6].field("inputSchema"@)->0.field("required"@) is None,
        definitions()[7].field("inputSchema"@)->0.field("required"@) is None,
        definitions()[8].field("inputSchema"@)->0.field("required"@) == Some(
            JsonView::Array(seq![JsonView::Str("name"@)]),
        ),
{
    lemma_definition_keys();
    let all = definitions();
    lemma_definition(all[0]->Object_0);
    lemma_definition(all[1]->Object_0);
    lemma_definition(all[2]->Object_0);
    lemma_definition(all[3]->Object_0);
    lemma_definition(all[4]->Object_0);
    lemma_definition(all[5]->Object_0);
    lemma_definition(all[6]->Object_0);
    lemma_definition(all[7]->Object_0);
    lemma_definition(all[8]->Object_0);
}

proof fn lemma_definition(entries: Seq<(Seq<char>, JsonView)>)
    requires
        entries.len() == 3,
        entries[0].0 == "name"@,
        entries[1].0 == "description"@,
        entries[2].0 == "inputSchema"@,
        entries[2].1 is Object,
        2 <= entries[2].1->Object_0.len() <= 3,
        entries[2].1->Object_0[0].0 == "type"@,
        entries[2].1->Object_0[1].0 == "properties"@,
        entries[2].1->Object_0.len() == 3 ==> entries[2].1->Object_0[2].0 == "required"@,
    ensures
        JsonView::Object(entries).field("name"@) == Some(entries[0].1),
        JsonView::Object(entries).field("inputSchema"@) == Some(entries[2].1),
        entries[2].1.field("required"@) == if entries[2].1->Object_0.len() == 3 {
            Some(entries[2].1->Object_0[2].1)
        } else {
            None
        },
{
    lemma_definition_keys();
    law_field_is_the_first_of_its_key(entries, "name"@, 0);
    law_field_is_the_first_of_its_key(entries, "inputSchema"@, 2);
    law_field_is_the_first_of_its_key(entries[2].1->Object_0, "required"@, 2);
}

proof fn lemma_rpc_methods()
    ensures
        "initialize"@ != "tools/list"@,
        "initialize"@ != "tools/call"@,
        "initialize"@ != "ping"@,
        "tools/list"@ != "tools/call"@,
        "tools/list"@ != "ping"@,
        "tools/call"@ != "ping"@,
{
    reveal_strlit("initialize");
    reveal_strlit("tools/list");
    reveal_strlit("tools/call");
    reveal_strlit("ping");
    assert("initialize"@.len() == 10);
    assert("tools/list"@.len() == 10);
    assert("tools/call"@.len() == 10);
    assert("ping"@.len() == 4);
    assert("initialize"@[0] == 'i');
    assert("tools/list"@[0] == 't');
    assert("tools/call"@[0] == 't');
    assert("tools/list"@[6] == 'l');
    assert("tools/call"@[6] == 'c');
}

/// What a request comes to goes by its method: `initialize`, `tools/list`,
/// `tools/call` and `ping`; there is no other. A call needs the name of a
/// tool; its arguments are handed on as they are, and without any it is made
/// with an empty object.
pub proof fn law_requests_go_by_method(method: Seq<char>, params: JsonView, name: Seq<char>)
    ensures
        ({
            let step = dispatch_of(method, params);
            let named = params.field("name"@) == Some(JsonView::Str(name));
            &&& method == "initialize"@ ==> step == RpcStepView::Result(server_json())
            &&& method == "tools/list"@ ==> step is Result && step->Result_0.field("tools"@)
                == Some(JsonView::Array(definitions()))
            &&& method == "ping"@ ==> step == RpcStepView::Result(JsonView::Object(Seq::empty()))
            &&& method == "tools/call"@ && named && tool_named(name) is Some ==> step == (
            RpcStepView::Call {
                tool: tool_named(name)->0,
                arguments: match params.field("arguments"@) {
                    Some(arguments) => arguments,
                    None => JsonView::Object(Seq::empty()),
                },
            })
            &&& method == "tools/call"@ && named && tool_named(name) is None ==> step == (
            RpcStepView::Error { code: -32602, message: "unknown tool: "@ + name })
            &&& method == "tools/call"@ && params.field("name"@) is None ==> step == (
            RpcStepView::Error { code: -32602, message: "missing tool name"@ })
            &&& method != "initialize"@ && method != "tools/list"@ && method != "tools/call"@
                && method != "ping"@ ==> step == (RpcStepView::Error {
                code: -32601,
                message: "method not found: "@ + method,
            })
        }),
{
    lemma_rpc_methods();
    law_field_is_the_first_of_its_key(
        empty_object().plus("tools"@, JsonView::Array(definitions()))->Object_0,
        "tools"@,
        0,
    );
}

/// The tools that fetch a page for one call, and the one that navigates, go
/// to the address that they are given; without one they fail and say what is
/// missing. What is done with the page goes by the tool: its summary is told,
/// it is rendered, or a script is run on it. PNG is what is rendered where no
/// format is asked for.
pub proof fn law_fetching_tools_go_to_the_address(
    session: SessionView,
    arguments: JsonView,
    url: Seq<char>,
    script: Seq<char>,
)
    requires
        url.len() > 0,
    ensures
        ({
            let step = |tool: McpTool| tool_step(session, tool, arguments);
            let there = arguments.field("url"@) == Some(JsonView::Str(url));
            let scripted = arguments.field("script"@) == Some(JsonView::Str(script));
            let format = match arguments.field("format"@) {
                Some(JsonView::Str(format)) => format,
                _ => "png"@,
            };
            let no_url = ToolStepView::Failed("missing '"@ + "url"@ + "' argument"@);
            let no_script = ToolStepView::Failed("missing '"@ + "script"@ + "' argument"@);
            &&& there ==> step(McpTool::FetchPage) == (ToolStepView::Fetch {
                url,
                purpose: FetchUseView::Summarize,
            })
            &&& there ==> step(McpTool::RenderScreenshot) == (ToolStepView::Fetch {
                url,
                purpose: FetchUseView::Render(format),
            })
            &&& there && scripted ==> step(McpTool::EvalJs) == (ToolStepView::Fetch {
                url,
                purpose: FetchUseView::Script(script),
            })
            &&& there && arguments.field("script"@) is None ==> step(McpTool::EvalJs) == no_script
            &&& there ==> step(McpTool::BrowserNavigate) == (ToolStepView::Navigate {
                url,
                clicked: false,
            })
            &&& arguments.field("url"@) is None ==> step(McpTool::FetchPage) == no_url && step(
                McpTool::RenderScreenshot,
            ) == no_url && step(McpTool::EvalJs) == no_url && step(McpTool::BrowserNavigate)
                == no_url
            &&& step(McpTool::BrowserScreenshot) == ToolStepView::Render(format)
        }),
{
}

/// Clicking by a selector clicks the first element that it names: a link and
/// a button lead on, a field gets the focus, and any other changes nothing.
/// Without a selector, or where it names nothing, the call fails and says so.
pub proof fn law_clicking_acts_on_the_first_named(
    session: SessionView,
    arguments: JsonView,
    selector: Seq<char>,
)
    ensures
        ({
            let step = tool_step(session, McpTool::BrowserClick, arguments);
            let after = tool_session(session, McpTool::BrowserClick, arguments);
            let given = arguments.field("selector"@) == Some(JsonView::Str(selector));
            let found = selected(session.page.root, selector);
            let told = |word: Seq<char>|
                ToolStepView::Content(
                    text_json(
                        json_written(
                            JsonView::Object(seq![("action"@, JsonView::Str(word))]),
                        ),
                    ),
                );
            &&& arguments.field("selector"@) is None ==> after == session && step
                == ToolStepView::Failed("missing '"@ + "selector"@ + "' argument"@)
            &&& given && found is None ==> after == session && step == ToolStepView::Failed(
                "no element matches selector '"@ + selector + "'"@,
            )
            &&& given && found is Some ==> match action_for(session.page, found->0) {
                ActionView::Navigate(url) => after == session && (url.len() > 0 ==> step == (
                ToolStepView::Navigate { url, clicked: true })),
                ActionView::Submit { action_url, query } => after == session && (action_url.len()
                    > 0 ==> step == (ToolStepView::Navigate {
                    url: submission_target(action_url, query),
                    clicked: true,
                })),
                ActionView::Focus(id) => step == told("focused"@) && (id == found->0 ==> after == (
                SessionView { focused: Some(id), ..session })),
                ActionView::Nothing => after == session && (session.focused != found ==> step
                    == told("none"@)),
            }
        }),
{
    assert(forall|word: Seq<char>|
        (#[trigger] click_json(word))->Object_0 =~= seq![("action"@, JsonView::Str(word))]);
}

/// Typing puts the text behind what the focused field holds, or behind what
/// the first element holds that a selector names, which then has the focus.
/// Without text, without a focused field, or where the selector names
/// nothing, the call fails.
pub proof fn law_typing_goes_to_a_field(
    session: SessionView,
    arguments: JsonView,
    text: Seq<char>,
    selector: Seq<char>,
)
    ensures
        ({
            let step = tool_step(session, McpTool::BrowserType, arguments);
            let after = tool_session(session, McpTool::BrowserType, arguments);
            let given = arguments.field("text"@) == Some(JsonView::Str(text));
            let aimed = arguments.field("selector"@) == Some(JsonView::Str(selector));
            let found = selected(session.page.root, selector);
            let plain = arguments.field("selector"@) is None;
            let done = ToolStepView::Content(text_json("ok"@));
            &&& arguments.field("text"@) is None ==> step == ToolStepView::Failed(
                "missing '"@ + "text"@ + "' argument"@,
            )
            &&& given && plain && session.focused is Some ==> step == done && after == keyed(
                session,
                "char"@,
                Some(text),
                None,
            )
            &&& given && plain && session.focused is None ==> step is Failed && after == session
            &&& given && aimed && found is Some ==> step == done && after == keyed(
                SessionView { focused: found, ..session },
                "char"@,
                Some(text),
                None,
            )
            &&& given && aimed && found is None ==> after == session && step
                == ToolStepView::Failed("no element matches selector '"@ + selector + "'"@)
        }),
{
}

/// The DOM is told as HTML: of the whole page, or of the first element that a
/// selector names; where it names nothing, the call fails.
pub proof fn law_dom_is_told_as_html(
    session: SessionView,
    arguments: JsonView,
    selector: Seq<char>,
)
    ensures
        ({
            let step = tool_step(session, McpTool::BrowserGetDom, arguments);
            let aimed = arguments.field("selector"@) == Some(JsonView::Str(selector));
            let found = selected(session.page.root, selector);
            &&& arguments.field("selector"@) is None ==> step == ToolStepView::Content(
                text_json(html_of(session.page.root)),
            )
            &&& aimed && found is Some ==> step == ToolStepView::Content(
                text_json(html_of(node_at(session.page.root, found->0)->0)),
            )
            &&& aimed && found is None ==> step == ToolStepView::Failed(
                "no element matches selector '"@ + selector + "'"@,
            )
        }),
        tool_session(session, McpTool::BrowserGetDom, arguments) == session,
        tool_session(session, McpTool::BrowserScreenshot, arguments) == session,
        tool_session(session, McpTool::BrowserNavigate, arguments) == session,
        tool_session(session, McpTool::BrowserCallTool, arguments) == session,
{
}

/// Calling a tool of the page leads to where its form is submitted, filled
/// with the arguments that are given; without a name, or where the page has
/// no tool of that name, the call fails.
pub proof fn law_page_tools_are_submitted(
    session: SessionView,
    arguments: JsonView,
    name: Seq<char>,
)
    ensures
        ({
            let step = tool_step(session, McpTool::BrowserCallTool, arguments);
            let named = arguments.field("name"@) == Some(JsonView::Str(name));
            let given = match arguments.field("arguments"@) {
                Some(given) => given,
                None => JsonView::Object(Seq::empty()),
            };
            let submission = submission_of(session.page, name, given);
            &&& arguments.field("name"@) is None ==> step == ToolStepView::Failed(
                "missing '"@ + "name"@ + "' argument"@,
            )
            &&& named && submission is None ==> step == ToolStepView::Failed(
                "no WebMCP tool named '"@ + name + "' on the current page"@,
            )
            &&& named && submission is Some && (submission->Some_0).0.len() > 0 ==> step == (
            ToolStepView::Navigate {
                url: submission_target((submission->Some_0).0, (submission->Some_0).1),
                clicked: false,
            })
        }),
{
}

proof fn lemma_summary_keys()
    ensures
        "url"@ != "title"@,
        "url"@ != "text"@,
        "url"@ != "links"@,
        "url"@ != "tools"@,
        "url"@ != "cookies"@,
        "title"@ != "text"@,
        "title"@ != "links"@,
        "title"@ != "tools"@,
        "title"@ != "cookies"@,
        "text"@ != "links"@,
        "text"@ != "tools"@,
        "text"@ != "cookies"@,
        "links"@ != "tools"@,
        "links"@ != "cookies"@,
        "tools"@ != "cookies"@,
{
    reveal_strlit("url");
    reveal_strlit("title");
    reveal_strlit("text");
    reveal_strlit("links");
    reveal_strlit("tools");
    reveal_strlit("cookies");
    assert("url"@.len() == 3);
    assert("title"@.len() == 5);
    assert("text"@.len() == 4);
    assert("links"@.len() == 5);
    assert("tools"@.len() == 5);
    assert("cookies"@.len() == 7);
    assert("title"@[0] == 't');
    assert("links"@[0] == 'l');
    assert("title"@[1] == 'i');
    assert("tools"@[1] == 'o');
    assert("tools"@[0] == 't');
}

/// A summary tells where a page is, its title and its text, and all its
/// links; its tools and its cookies if it has any, all of them and in order.
pub proof fn law_summary_tells_the_page(page: PageView)
    ensures
        ({
            let summary = summary_of(page);
            &&& summary.field("url"@) == Some(
                match page.url {
                    Some(url) => JsonView::Str(url),
                    None => JsonView::Null,
                },
            )
            &&& summary.field("title"@) == Some(
                match page.title {
                    Some(title) => JsonView::Str(title),
                    None => JsonView::Null,
                },
            )
            &&& summary.field("text"@) == Some(JsonView::Str(page.text))
            &&& summary.field("links"@) == Some(
                JsonView::Array(page.links.map_values(|link: Seq<char>| JsonView::Str(link))),
            )
            &&& tools_of(page).len() == 0 ==> summary.field("tools"@) is None
            &&& tools_of(page).len() > 0 ==> summary.field("tools"@) == Some(
                JsonView::Array(tools_of(page).map_values(|tool: ToolView| tool_json(tool))),
            )
            &&& page.cookies.len() == 0 ==> summary.field("cookies"@) is None
            &&& page.cookies.len() > 0 ==> summary.field("cookies"@) == Some(
                JsonView::Array(
                    page.cookies.map_values(|cookie: CookieView| cookie_json(cookie)),
                ),
            )
        }),
{
    lemma_summary_keys();
    let entries = summary_of(page)->Object_0;
    let n = entries.len() as int;
    let tooled = tools_of(page).len() > 0;
    law_field_is_the_first_of_its_key(entries, "url"@, 0);
    law_field_is_the_first_of_its_key(entries, "title"@, 1);
    law_field_is_the_first_of_its_key(entries, "text"@, 2);
    law_field_is_the_first_of_its_key(entries, "links"@, 3);
    law_field_is_the_first_of_its_key(
        entries,
        "tools"@,
        if tooled {
            4
        } else {
            n
        },
    );
    law_field_is_the_first_of_its_key(
        entries,
        "cookies"@,
        if page.cookies.len() > 0 {
            n - 1
        } else {
            n
        },
    );
    assert(json_strings(page.links)->Array_0 =~= page.links.map_values(
        |link: Seq<char>| JsonView::Str(link),
    ));
}

proof fn lemma_listed_keys()
    ensures
        "name"@ != "value"@,
        "name"@ != "domain"@,
        "name"@ != "path"@,
        "name"@ != "secure"@,
        "name"@ != "http_only"@,
        "name"@ != "same_site"@,
        "name"@ != "description"@,
        "name"@ != "autosubmit"@,
        "name"@ != "inputSchema"@,
        "value"@ != "domain"@,
        "value"@ != "path"@,
        "value"@ != "secure"@,
        "value"@ != "http_only"@,
        "value"@ != "same_site"@,
        "value"@ != "description"@,
        "value"@ != "autosubmit"@,
        "value"@ != "inputSchema"@,
        "domain"@ != "path"@,
        "domain"@ != "secure"@,
        "domain"@ != "http_only"@,
        "domain"@ != "same_site"@,
        "domain"@ != "description"@,
        "domain"@ != "autosubmit"@,
        "domain"@ != "inputSchema"@,
        "path"@ != "secure"@,
        "path"@ != "http_only"@,
        "path"@ != "same_site"@,
        "path"@ != "description"@,
        "path"@ != "autosubmit"@,
        "path"@ != "inputSchema"@,
        "secure"@ != "http_only"@,
        "secure"@ != "same_site"@,
        "secure"@ != "description"@,
        "secure"@ != "autosubmit"@,
        "secure"@ != "inputSchema"@,
        "http_only"@ != "same_site"@,
        "http_only"@ != "description"@,
        "http_only"@ != "autosubmit"@,
        "http_only"@ != "inputSchema"@,
        "same_site"@ != "description"@,
        "same_site"@ != "autosubmit"@,
        "same_site"@ != "inputSchema"@,
        "description"@ != "autosubmit"@,
        "description"@ != "inputSchema"@,
        "autosubmit"@ != "inputSchema"@,
{
    reveal_strlit("name");
    reveal_strlit("value");
    reveal_strlit("domain");
    reveal_strlit("path");
    reveal_strlit("secure");
    reveal_strlit("http_only");
    reveal_strlit("same_site");
    reveal_strlit("description");
    reveal_strlit("autosubmit");
    reveal_strlit("inputSchema");
    assert("name"@.len() == 4);
    assert("value"@.len() == 5);
    assert("domain"@.len() == 6);
    assert("path"@.len() == 4);
    assert("secure"@.len() == 6);
    assert("http_only"@.len() == 9);
    assert("same_site"@.len() == 9);
    assert("description"@.len() == 11);
    assert("autosubmit"@.len() == 10);
    assert("inputSchema"@.len() == 11);
    assert("name"@[0] == 'n');
    assert("path"@[0] == 'p');
    assert("domain"@[0] == 'd');
    assert("secure"@[0] == 's');
    assert("http_only"@[0] == 'h');
    assert("same_site"@[0] == 's');
    assert("description"@[0] == 'd');
    assert("inputSchema"@[0] == 'i');
}

/// A tool of a page is listed with its name, its description, whether it
/// submits by itself, and its schema.
pub proof fn law_listed_tool_tells_its_schema(tool: ToolView)
    ensures
        tool_json(tool).field("name"@) == Some(JsonView::Str(tool.name)),
        tool_json(tool).field("description"@) == Some(JsonView::Str(tool.description)),
        tool_json(tool).field("autosubmit"@) == Some(JsonView::Bool(tool.autosubmit)),
        tool_json(tool).field("inputSchema"@) == Some(tool.input_schema),
{
    lemma_listed_keys();
    let entries = tool_json(tool)->Object_0;
    law_field_is_the_first_of_its_key(entries, "name"@, 0);
    law_field_is_the_first_of_its_key(entries, "description"@, 1);
    law_field_is_the_first_of_its_key(entries, "autosubmit"@, 2);
    law_field_is_the_first_of_its_key(entries, "inputSchema"@, 3);
}

proof fn lemma_plus_text(
    entries: Seq<(Seq<char>, JsonView)>,
    added: Seq<char>,
    text: Option<Seq<char>>,
    key: Seq<char>,
)
    ensures
        plus_text(JsonView::Object(entries), added, text) is Object,
        plus_text(JsonView::Object(entries), added, text).field(key) == match JsonView::Object(
            entries,
        ).field(key) {
            Some(held) => Some(held),
            None => if key == added && text is Some {
                Some(JsonView::Str(text->0))
            } else {
                None
            },
        },
{
    if let Some(text) = text {
        law_entries_are_kept(entries, added, json_str(text), key);
    }
}

proof fn lemma_plus_flag(
    entries: Seq<(Seq<char>, JsonView)>,
    added: Seq<char>,
    flag: bool,
    key: Seq<char>,
)
    ensures
        plus_flag(JsonView::Object(entries), added, flag) is Object,
        plus_flag(JsonView::Object(entries), added, flag).field(key) == match JsonView::Object(
            entries,
        ).field(key) {
            Some(held) => Some(held),
            None => if key == added && flag {
                Some(JsonView::Bool(true))
            } else {
                None
            },
        },
{
    if flag {
        law_entries_are_kept(entries, added, JsonView::Bool(true), key);
    }
}

proof fn lemma_cookie_field(cookie: CookieView, key: Seq<char>)
    ensures
        cookie_json(cookie).field(key) == if key == "name"@ {
            Some(JsonView::Str(cookie.name))
        } else if key == "value"@ {
            Some(JsonView::Str(cookie.value))
        } else if key == "domain"@ && cookie.domain is Some {
            Some(JsonView::Str(cookie.domain->0))
        } else if key == "path"@ && cookie.path is Some {
            Some(JsonView::Str(cookie.path->0))
        } else if key == "secure"@ && cookie.secure {
            Some(JsonView::Bool(true))
        } else if key == "http_only"@ && cookie.http_only {
            Some(JsonView::Bool(true))
        } else if key == "same_site"@ && cookie.same_site is Some {
            Some(JsonView::Str(cookie.same_site->0))
        } else {
            None
        },
{
    lemma_listed_keys();
    let start = empty_object();
    let one = start.plus("name"@, json_str(cookie.name));
    let two = one.plus("value"@, json_str(cookie.value));
    law_entries_are_kept(start->Object_0, "name"@, json_str(cookie.name), key);
    law_entries_are_kept(one->Object_0, "value"@, json_str(cookie.value), key);
    lemma_plus_text(two->Object_0, "domain"@, cookie.domain, key);
    let three = plus_text(two, "domain"@, cookie.domain);
    lemma_plus_text(three->Object_0, "path"@, cookie.path, key);
    let four = plus_text(three, "path"@, cookie.path);
    lemma_plus_flag(four->Object_0, "secure"@, cookie.secure, key);
    let five = plus_flag(four, "secure"@, cookie.secure);
    lemma_plus_flag(five->Object_0, "http_only"@, cookie.http_only, key);
    let six = plus_flag(five, "http_only"@, cookie.http_only);
    lemma_plus_text(six->Object_0, "same_site"@, cookie.same_site, key);
}

/// A cookie is listed with its name, its value and all that it has, and with
/// nothing that it has not.
pub proof fn law_listed_cookie_tells_all(cookie: CookieView)
    ensures
        ({
            let json = cookie_json(cookie);
            let text = |key: Seq<char>, value: Option<Seq<char>>|
                json.field(key) == match value {
                    Some(value) => Some(JsonView::Str(value)),
                    None => None,
                };
            &&& text("name"@, Some(cookie.name))
            &&& text("value"@, Some(cookie.value))
            &&& text("domain"@, cookie.domain)
            &&& text("path"@, cookie.path)
            &&& text("same_site"@, cookie.same_site)
            &&& json.field("secure"@) == Some(JsonView::Bool(true)) <==> cookie.secure
            &&& json.field("http_only"@) == Some(JsonView::Bool(true)) <==> cookie.http_only
        }),
{
    lemma_listed_keys();
    lemma_cookie_field(cookie, "name"@);
    lemma_cookie_field(cookie, "value"@);
    lemma_cookie_field(cookie, "domain"@);
    lemma_cookie_field(cookie, "path"@);
    lemma_cookie_field(cookie, "same_site"@);
    lemma_cookie_field(cookie, "secure"@);
    lemma_cookie_field(cookie, "http_only"@);
}

proof fn lemma_result_keys()
    ensures
        "content"@ != "isError"@,
        "content"@ != "type"@,
        "content"@ != "text"@,
        "content"@ != "data"@,
        "content"@ != "mimeType"@,
        "content"@ != "jsonrpc"@,
        "content"@ != "id"@,
        "content"@ != "result"@,
        "content"@ != "error"@,
        "content"@ != "code"@,
        "content"@ != "message"@,
        "content"@ != "action"@,
        "content"@ != "page"@,
        "isError"@ != "type"@,
        "isError"@ != "text"@,
        "isError"@ != "data"@,
        "isError"@ != "mimeType"@,
        "isError"@ != "jsonrpc"@,
        "isError"@ != "id"@,
        "isError"@ != "result"@,
        "isError"@ != "error"@,
        "isError"@ != "code"@,
        "isError"@ != "message"@,
        "isError"@ != "action"@,
        "isError"@ != "page"@,
        "type"@ != "text"@,
        "type"@ != "data"@,
        "type"@ != "mimeType"@,
        "type"@ != "jsonrpc"@,
        "type"@ != "id"@,
        "type"@ != "result"@,
        "type"@ != "error"@,
        "type"@ != "code"@,
        "type"@ != "message"@,
        "type"@ != "action"@,
        "type"@ != "page"@,
        "text"@ != "data"@,
        "text"@ != "mimeType"@,
        "text"@ != "jsonrpc"@,
        "text"@ != "id"@,
        "text"@ != "result"@,
        "text"@ != "error"@,
        "text"@ != "code"@,
        "text"@ != "message"@,
        "text"@ != "action"@,
        "text"@ != "page"@,
        "data"@ != "mimeType"@,
        "data"@ != "jsonrpc"@,
        "data"@ != "id"@,
        "data"@ != "result"@,
        "data"@ != "error"@,
        "data"@ != "code"@,
        "data"@ != "message"@,
        "data"@ != "action"@,
        "data"@ != "page"@,
        "mimeType"@ != "jsonrpc"@,
        "mimeType"@ != "id"@,
        "mimeType"@ != "result"@,
        "mimeType"@ != "error"@,
        "mimeType"@ != "code"@,
        "mimeType"@ != "message"@,
        "mimeType"@ != "action"@,
        "mimeType"@ != "page"@,
        "jsonrpc"@ != "id"@,
        "jsonrpc"@ != "result"@,
        "jsonrpc"@ != "error"@,
        "jsonrpc"@ != "code"@,
        "jsonrpc"@ != "message"@,
        "jsonrpc"@ != "action"@,
        "jsonrpc"@ != "page"@,
        "id"@ != "result"@,
        "id"@ != "error"@,
        "id"@ != "code"@,
        "id"@ != "message"@,
        "id"@ != "action"@,
        "id"@ != "page"@,
        "result"@ != "error"@,
        "result"@ != "code"@,
        "result"@ != "message"@,
        "result"@ != "action"@,
        "result"@ != "page"@,
        "error"@ != "code"@,
        "error"@ != "message"@,
        "error"@ != "action"@,
        "error"@ != "page"@,
        "code"@ != "message"@,
        "code"@ != "action"@,
        "code"@ != "page"@,
        "message"@ != "action"@,
        "message"@ != "page"@,
        "action"@ != "page"@,
{
    reveal_strlit("content");
    reveal_strlit("isError");
    reveal_strlit("type");
    reveal_strlit("text");
    reveal_strlit("data");
    reveal_strlit("mimeType");
    reveal_strlit("jsonrpc");
    reveal_strlit("id");
    reveal_strlit("result");
    reveal_strlit("error");
    reveal_strlit("code");
    reveal_strlit("message");
    reveal_strlit("action");
    reveal_strlit("page");
    assert("content"@.len() == 7);
    assert("isError"@.len() == 7);
    assert("type"@.len() == 4);
    assert("text"@.len() == 4);
    assert("data"@.len() == 4);
    assert("mimeType"@.len() == 8);
    assert("jsonrpc"@.len() == 7);
    assert("id"@.len() == 2);
    assert("result"@.len() == 6);
    assert("error"@.len() == 5);
    assert("code"@.len() == 4);
    assert("message"@.len() == 7);
    assert("action"@.len() == 6);
    assert("page"@.len() == 4);
    assert("content"@[0] == 'c');
    assert("isError"@[0] == 'i');
    assert("jsonrpc"@[0] == 'j');
    assert("message"@[0] == 'm');
    assert("type"@[1] == 'y');
    assert("text"@[1] == 'e');
    assert("type"@[0] == 't');
    assert("data"@[0] == 'd');
    assert("code"@[0] == 'c');
    assert("page"@[0] == 'p');
    assert("text"@[0] == 't');
    assert("result"@[0] == 'r');
    assert("action"@[0] == 'a');
}

/// A result holds one piece of content: what the call came to, or in words
/// why it failed, and it says which of the two. Text is told as text, an
/// image as PNG in base64.
pub proof fn law_result_says_whether_it_failed(
    content: JsonView,
    message: Seq<char>,
    png: Seq<u8>,
)
    ensures
        result_json(Ok(content)).field("content"@) == Some(JsonView::Array(seq![content])),
        result_json(Ok(content)).field("isError"@) == Some(JsonView::Bool(false)),
        result_json(Err(message)).field("content"@) == Some(
            JsonView::Array(seq![text_json(message)]),
        ),
        result_json(Err(message)).field("isError"@) == Some(JsonView::Bool(true)),
        text_json(message).field("type"@) == Some(JsonView::Str("text"@)),
        text_json(message).field("text"@) == Some(JsonView::Str(message)),
        image_json(png).field("type"@) == Some(JsonView::Str("image"@)),
        image_json(png).field("data"@) == Some(JsonView::Str(base64_text(png))),
        image_json(png).field("mimeType"@) == Some(JsonView::Str("image/png"@)),
{
    lemma_result_keys();
    let done = result_json(Ok(content))->Object_0;
    let failed = result_json(Err(message))->Object_0;
    law_field_is_the_first_of_its_key(done, "content"@, 0);
    law_field_is_the_first_of_its_key(done, "isError"@, 1);
    law_field_is_the_first_of_its_key(failed, "content"@, 0);
    law_field_is_the_first_of_its_key(failed, "isError"@, 1);
    law_field_is_the_first_of_its_key(text_json(message)->Object_0, "type"@, 0);
    law_field_is_the_first_of_its_key(text_json(message)->Object_0, "text"@, 1);
    law_field_is_the_first_of_its_key(image_json(png)->Object_0, "type"@, 0);
    law_field_is_the_first_of_its_key(image_json(png)->Object_0, "data"@, 1);
    law_field_is_the_first_of_its_key(image_json(png)->Object_0, "mimeType"@, 2);
}

/// A page that is rendered is told as SVG text where SVG is asked for, and as
/// a PNG image of the page, 1024 pixels wide, otherwise; where it cannot be
/// rendered, the result says that it failed.
pub proof fn law_rendering_tells_svg_or_png(page: PageView, format: Seq<char>, result: JsonView)
    requires
        is_render_result(page, format, result),
    ensures
        format == "svg"@ && !is_too_high(page, 1024) ==> result == result_json(
            Ok(text_json(svg_of(page.root, 1024))),
        ),
        format != "svg"@ && is_rendered(page, 1024) ==> exists|png: Seq<u8>|
            is_png_of(page, 1024, png) && result == result_json(Ok(#[trigger] image_json(png))),
        format == "svg"@ && is_too_high(page, 1024) || format != "svg"@ && !is_rendered(page, 1024)
            ==> result.field("isError"@) == Some(JsonView::Bool(true)),
{
    lemma_result_keys();
    if format != "svg"@ && is_rendered(page, 1024) {
        let png = choose|png: Seq<u8>| #[trigger] shows_image(page, result, png);
        assert(result == result_json(Ok(image_json(png))));
    } else if format != "svg"@ {
        let error = choose|error: RasterError|
            is_refused(page, RENDER_WIDTH, error) && result == result_json(
                Err(#[trigger] error.text()),
            );
        law_result_says_whether_it_failed(JsonView::Null, error.text(), Seq::empty());
    } else {
        law_result_says_whether_it_failed(
            JsonView::Null,
            RasterError::TooHigh.text(),
            Seq::empty(),
        );
    }
}

/// A call that has led to a page tells its summary; a click says besides that
/// it has led there.
pub proof fn law_arrival_tells_the_page(page: PageView)
    ensures
        arrival_json(page, false) == summary_of(page),
        arrival_json(page, true).field("action"@) == Some(JsonView::Str("navigated"@)),
        arrival_json(page, true).field("page"@) == Some(summary_of(page)),
{
    lemma_result_keys();
    let entries = arrival_json(page, true)->Object_0;
    law_field_is_the_first_of_its_key(entries, "action"@, 0);
    law_field_is_the_first_of_its_key(entries, "page"@, 1);
}

/// An answer has the id of its request, and either the result or the error
/// with its code and its message.
pub proof fn law_answer_has_the_id_of_its_request(
    id: JsonView,
    result: JsonView,
    code: i64,
    message: Seq<char>,
)
    ensures
        ({
            let done = answer_json(id, Ok(result));
            let failed = answer_json(id, Err((code, message)));
            &&& done.field("jsonrpc"@) == Some(JsonView::Str("2.0"@))
            &&& failed.field("jsonrpc"@) == Some(JsonView::Str("2.0"@))
            &&& done.field("id"@) == Some(id) && failed.field("id"@) == Some(id)
            &&& done.field("result"@) == Some(result) && done.field("error"@) is None
            &&& failed.field("result"@) is None && failed.field("error"@) is Some
            &&& failed.field("error"@)->0.field("code"@) == Some(JsonView::Negative(code))
            &&& failed.field("error"@)->0.field("message"@) == Some(JsonView::Str(message))
        }),
{
    lemma_result_keys();
    let done = answer_json(id, Ok(result))->Object_0;
    let failed = answer_json(id, Err((code, message)))->Object_0;
    law_field_is_the_first_of_its_key(done, "jsonrpc"@, 0);
    law_field_is_the_first_of_its_key(failed, "jsonrpc"@, 0);
    law_field_is_the_first_of_its_key(done, "id"@, 1);
    law_field_is_the_first_of_its_key(failed, "id"@, 1);
    law_field_is_the_first_of_its_key(done, "result"@, 2);
    law_field_is_the_first_of_its_key(done, "error"@, 3);
    law_field_is_the_first_of_its_key(failed, "error"@, 2);
    law_field_is_the_first_of_its_key(failed, "result"@, 3);
    let error = failed[2].1->Object_0;
    law_field_is_the_first_of_its_key(error, "code"@, 0);
    law_field_is_the_first_of_its_key(error, "message"@, 1);
}

/// Without an address there is nowhere to go: a navigation to an empty one
/// fails, whether it was asked for, clicked or submitted.
pub proof fn law_no_navigation_without_an_address(
    session: SessionView,
    arguments: JsonView,
    selector: Seq<char>,
)
    ensures
        ({
            let nowhere = ToolStepView::Failed("no URL available for navigation"@);
            let found = selected(session.page.root, selector);
            &&& arguments.field("url"@) == Some(JsonView::Str(Seq::empty())) ==> tool_step(
                session,
                McpTool::BrowserNavigate,
                arguments,
            ) == nowhere
            &&& arguments.field("selector"@) == Some(JsonView::Str(selector)) && found is Some
                && action_for(session.page, found->0) == ActionView::Navigate(Seq::empty())
                ==> tool_step(session, McpTool::BrowserClick, arguments) == nowhere
        }),
{
}

/// The server tells the version of the protocol that it speaks, that it has
/// tools, and its name.
pub proof fn law_server_tells_its_protocol()
    ensures
        server_json().field("protocolVersion"@) == Some(JsonView::Str("2024-11-05"@)),
        server_json().field("capabilities"@) is Some,
        server_json().field("capabilities"@)->0.field("tools"@) == Some(
            JsonView::Object(Seq::empty()),
        ),
        server_json().field("serverInfo"@) is Some,
        server_json().field("serverInfo"@)->0.field("name"@) == Some(JsonView::Str("kite-lite"@)),
{
    reveal_strlit("protocolVersion");
    reveal_strlit("capabilities");
    reveal_strlit("serverInfo");
    assert("protocolVersion"@.len() == 15 && "capabilities"@.len() == 12 && "serverInfo"@.len()
        == 10);
    let server = server_json()->Object_0;
    law_field_is_the_first_of_its_key(server, "protocolVersion"@, 0);
    law_field_is_the_first_of_its_key(server, "capabilities"@, 1);
    law_field_is_the_first_of_its_key(server, "serverInfo"@, 2);
    law_field_is_the_first_of_its_key(server[1].1->Object_0, "tools"@, 0);
    law_field_is_the_first_of_its_key(server[2].1->Object_0, "name"@, 0);
}

/// A message is a request if and only if it has an id, which the request
/// keeps with its method and its parameters.
pub proof fn law_requests_have_an_id(message: JsonView, request: Option<McpRequest>)
    requires
        is_message(message, request),
    ensures
        request is Some <==> message.field("id"@) is Some,
        request is Some ==> Some(request->0.id.deep_view()) == message.field("id"@),
        request is Some && message.field("params"@) is Some ==> Some(
            request->0.params.deep_view(),
        ) == message.field("params"@),
        request is Some && message.field("params"@) is None ==> request->0.params.deep_view()
            == JsonView::Null,
        request is Some ==> match message.field("method"@) {
            Some(JsonView::Str(method)) => request->0.method@ == method,
            _ => request->0.method@.len() == 0,
        },
{
}

/// Base64 goes by three bytes at a time: four characters that hold their 24
/// bits, in order; of one byte or two that are left over, the bits that they
/// have, and `=` for what is missing.
pub proof fn law_base64_goes_by_three_bytes(a: u8, b: u8, c: u8, rest: Seq<u8>)
    ensures
        ({
            let n = a * 65536 + b * 256 + c;
            let text = base64_text(seq![a, b, c] + rest);
            &&& text.len() == 4 + base64_text(rest).len()
            &&& text.skip(4) == base64_text(rest)
            &&& text[0] == base64_char(n / 262144) && text[1] == base64_char((n / 4096) % 64)
            &&& text[2] == base64_char((n / 64) % 64) && text[3] == base64_char(n % 64)
        }),
        base64_text(Seq::empty()).len() == 0,
        base64_text(seq![a]) == seq![
            base64_char(a as int / 4),
            base64_char((a as int % 4) * 16),
            '=',
            '=',
        ],
        base64_text(seq![a, b]) == seq![
            base64_char(a as int / 4),
            base64_char((a as int % 4) * 16 + b as int / 16),
            base64_char((b as int % 16) * 4),
            '=',
        ],
{
    let all = seq![a, b, c] + rest;
    assert(all.skip(3) =~= rest);
    let text = base64_text(all);
    assert(text.skip(4) =~= base64_text(rest));
    lemma_two_bytes(a as int, b as int);
    lemma_two_bytes(a as int, 0);
}

proof fn lemma_two_bytes(a: int, b: int)
    requires
        0 <= a < 256,
        0 <= b < 256,
    ensures
        (a * 16) / 64 == a / 4,
        (a * 16) % 64 == (a % 4) * 16,
        ((a * 256 + b) * 4) / 4096 == a / 4,
        ((a * 256 + b) * 4) / 64 % 64 == (a % 4) * 16 + b / 16,
        ((a * 256 + b) * 4) % 64 == (b % 16) * 4,
{
    let q = a / 4;
    let r = a % 4;
    let s = b / 16;
    let t = b % 16;
    assert(a == 4 * q + r && b == 16 * s + t);
    assert((a * 256 + b) * 4 == 4096 * q + 1024 * r + 64 * s + 4 * t);
    assert(((a * 256 + b) * 4) / 64 == 64 * q + 16 * r + s);
}

/// The characters of base64 are the capital letters, the small letters, the
/// digits, `+` and `/`, in this order.
pub proof fn law_base64_characters(n: int)
    requires
        0 <= n < 64,
    ensures
        n < 26 ==> base64_char(n) as int == 'A' as int + n,
        26 <= n < 52 ==> base64_char(n) as int == 'a' as int + n - 26,
        52 <= n < 62 ==> base64_char(n) as int == '0' as int + n - 52,
        n == 62 ==> base64_char(n) == '+',
        n == 63 ==> base64_char(n) == '/',
{
}

} // verus!
