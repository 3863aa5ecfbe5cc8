//! A small part of the Chrome DevTools Protocol: what each request means for
//! the session, what is answered, and which events follow. There is one page
//! and one target, and it is always attached.
//!
//! A request either is answered at once, or asks for work outside (a page to
//! be fetched, a script to be run) whose outcome is answered afterwards.

use crate::forms::submission_target;
use crate::json::{
    empty_object, json_parsed, json_str, json_strings, law_field_is_the_first_of_its_key,
    parse_json, Json, JsonView,
};
use crate::model::{lemma_children, Element, ElementView, Layout, Page, PageView};
use crate::outer_html::{attribute_pairs, element_attribute_pairs, element_html, html_of};
use crate::seqs::{lemma_first_where_is, lemma_places, places};
use crate::session::{
    action_target, click_at, dispatch_key, keyed, number, plan_click, target_of, ActionView,
    CdpSession, ClickAction, SessionView,
};
use crate::text::{
    ascii_lower, decimal, decimal_text, or_empty, same_text, stands_at, text_or_empty,
};
use crate::tree::{
    find_node, find_selector, find_selectors, lemma_preorder_all_grows, node_at, nodes_of,
    preorder, preorder_all, selected, selector_test,
};
use vstd::prelude::*;

verus! {

/// The text in upper case.
pub uninterp spec fn upper_cased(text: Seq<char>) -> Seq<char>;

/// Calls `str::to_uppercase`. What comes back depends on the text alone.
#[verifier::external_body]
fn to_upper(text: &str) -> (upper: String)
    ensures
        upper@ == upper_cased(text@),
{
    text.to_uppercase()
}

/// The requests that are answered with more than an empty object, or that
/// change the session.
#[derive(Debug, Clone, Copy, PartialEq, Eq, Structural)]
pub enum CdpMethod {
    GetVersion,
    GetTargets,
    GetTargetInfo,
    AttachToTarget,
    AttachToBrowserTarget,
    SetAutoAttach,
    CloseTarget,
    GetDocument,
    QuerySelector,
    QuerySelectorAll,
    GetAttributes,
    GetBoxModel,
    GetOuterHtml,
    GetNavigationHistory,
    GetResourceTree,
    CaptureSnapshot,
    Navigate,
    Reload,
    DispatchMouseEvent,
    DispatchKeyEvent,
    Evaluate,
    Other,
}

/// The request that a method name names.
pub open spec fn method_of(name: Seq<char>) -> CdpMethod {
    if name == "Browser.getVersion"@ {
        CdpMethod::GetVersion
    } else if name == "Target.getTargets"@ {
        CdpMethod::GetTargets
    } else if name == "Target.getTargetInfo"@ {
        CdpMethod::GetTargetInfo
    } else if name == "Target.attachToTarget"@ {
        CdpMethod::AttachToTarget
    } else if name == "Target.attachToBrowserTarget"@ {
        CdpMethod::AttachToBrowserTarget
    } else if name == "Target.setAutoAttach"@ {
        CdpMethod::SetAutoAttach
    } else if name == "Target.closeTarget"@ {
        CdpMethod::CloseTarget
    } else if name == "DOM.getDocument"@ {
        CdpMethod::GetDocument
    } else if name == "DOM.querySelector"@ {
        CdpMethod::QuerySelector
    } else if name == "DOM.querySelectorAll"@ {
        CdpMethod::QuerySelectorAll
    } else if name == "DOM.getAttributes"@ {
        CdpMethod::GetAttributes
    } else if name == "DOM.getBoxModel"@ {
        CdpMethod::GetBoxModel
    } else if name == "DOM.getOuterHTML"@ {
        CdpMethod::GetOuterHtml
    } else if name == "Page.getNavigationHistory"@ {
        CdpMethod::GetNavigationHistory
    } else if name == "Page.getResourceTree"@ {
        CdpMethod::GetResourceTree
    } else if name == "Page.captureSnapshot"@ {
        CdpMethod::CaptureSnapshot
    } else if name == "Page.navigate"@ {
        CdpMethod::Navigate
    } else if name == "Page.reload"@ {
        CdpMethod::Reload
    } else if name == "Input.dispatchMouseEvent"@ {
        CdpMethod::DispatchMouseEvent
    } else if name == "Input.dispatchKeyEvent"@ {
        CdpMethod::DispatchKeyEvent
    } else if name == "Runtime.evaluate"@ {
        CdpMethod::Evaluate
    } else {
        CdpMethod::Other
    }
}

/// The request that a method name names.
pub fn cdp_method(name: &str) -> (method: CdpMethod)
    ensures
        method == method_of(name@),
{
    if same_text(name, "Browser.getVersion") {
        CdpMethod::GetVersion
    } else if same_text(name, "Target.getTargets") {
        CdpMethod::GetTargets
    } else if same_text(name, "Target.getTargetInfo") {
        CdpMethod::GetTargetInfo
    } else if same_text(name, "Target.attachToTarget") {
        CdpMethod::AttachToTarget
    } else if same_text(name, "Target.attachToBrowserTarget") {
        CdpMethod::AttachToBrowserTarget
    } else if same_text(name, "Target.setAutoAttach") {
        CdpMethod::SetAutoAttach
    } else if same_text(name, "Target.closeTarget") {
        CdpMethod::CloseTarget
    } else if same_text(name, "DOM.getDocument") {
        CdpMethod::GetDocument
    } else if same_text(name, "DOM.querySelector") {
        CdpMethod::QuerySelector
    } else if same_text(name, "DOM.querySelectorAll") {
        CdpMethod::QuerySelectorAll
    } else if same_text(name, "DOM.getAttributes") {
        CdpMethod::GetAttributes
    } else if same_text(name, "DOM.getBoxModel") {
        CdpMethod::GetBoxModel
    } else if same_text(name, "DOM.getOuterHTML") {
        CdpMethod::GetOuterHtml
    } else if same_text(name, "Page.getNavigationHistory") {
        CdpMethod::GetNavigationHistory
    } else if same_text(name, "Page.getResourceTree") {
        CdpMethod::GetResourceTree
    } else if same_text(name, "Page.captureSnapshot") {
        CdpMethod::CaptureSnapshot
    } else if same_text(name, "Page.navigate") {
        CdpMethod::Navigate
    } else if same_text(name, "Page.reload") {
        CdpMethod::Reload
    } else if same_text(name, "Input.dispatchMouseEvent") {
        CdpMethod::DispatchMouseEvent
    } else if same_text(name, "Input.dispatchKeyEvent") {
        CdpMethod::DispatchKeyEvent
    } else if same_text(name, "Runtime.evaluate") {
        CdpMethod::Evaluate
    } else {
        CdpMethod::Other
    }
}

/// The address of a page; `about:blank` where it has none.
pub open spec fn url_or_blank(page: PageView) -> Seq<char> {
    match page.url {
        Some(url) => url,
        None => "about:blank"@,
    }
}

/// The address of a page; `about:blank` where it has none.
pub fn page_url(page: &Page) -> (url: &str)
    ensures
        url@ == url_or_blank(page.deep_view()),
{
    match &page.url {
        Some(url) => url.as_str(),
        None => "about:blank",
    }
}

/// The one target there is.
pub open spec fn target_of_page(page: PageView) -> JsonView {
    empty_object().plus("targetId"@, json_str("kite-lite-target"@)).plus(
        "type"@,
        json_str("page"@),
    ).plus("title"@, json_str(text_or_empty(page.title))).plus(
        "url"@,
        json_str(url_or_blank(page)),
    ).plus("attached"@, JsonView::Bool(true)).plus("canAccessOpener"@, JsonView::Bool(false)).plus(
        "browserContextId"@,
        json_str("kite-lite-context"@),
    )
}

/// The one target there is.
pub fn target_info(page: &Page) -> (info: Json)
    ensures
        info.deep_view() == target_of_page(page.deep_view()),
{
    Json::object().with("targetId", Json::string("kite-lite-target")).with(
        "type",
        Json::string("page"),
    ).with("title", Json::string(or_empty(&page.title))).with(
        "url",
        Json::string(page_url(page)),
    ).with("attached", Json::Bool(true)).with("canAccessOpener", Json::Bool(false)).with(
        "browserContextId",
        Json::string("kite-lite-context"),
    )
}

/// An element and all that is below it, as the protocol describes a node.
/// The element has number `id`.
pub open spec fn node_json(e: ElementView, id: int) -> JsonView
    decreases e,
{
    let is_document = e.tag == "document"@;
    empty_object().plus("nodeId"@, JsonView::Unsigned(id as u64)).plus(
        "nodeType"@,
        JsonView::Unsigned(
            if is_document {
                9
            } else {
                1
            },
        ),
    ).plus(
        "nodeName"@,
        json_str(
            if is_document {
                "#document"@
            } else {
                upper_cased(e.tag)
            },
        ),
    ).plus(
        "localName"@,
        json_str(
            if is_document {
                ""@
            } else {
                e.tag
            },
        ),
    ).plus("nodeValue"@, json_str(""@)).plus(
        "childNodeCount"@,
        JsonView::Unsigned(e.children.len() as u64),
    ).plus("children"@, JsonView::Array(nodes_json(e.children, id + 1))).plus(
        "attributes"@,
        json_strings(attribute_pairs(e)),
    )
}

/// The elements as nodes; the first has number `id`.
pub open spec fn nodes_json(s: Seq<ElementView>, id: int) -> Seq<JsonView>
    decreases s,
{
    if s.len() == 0 {
        Seq::empty()
    } else {
        let before = preorder_all(s.drop_last()).len() as int;
        nodes_json(s.drop_last(), id).push(node_json(s.last(), id + before))
    }
}

fn node_from(element: &Element, id: u64) -> (node: (Json, u64))
    requires
        1 <= id,
        id - 1 + preorder(element.deep_view()).len() <= u64::MAX,
    ensures
        node.0.deep_view() == node_json(element.deep_view(), id as int),
        node.1 == preorder(element.deep_view()).len(),
    decreases element,
{
    let ghost e = element.deep_view();
    let mut children: Vec<Json> = Vec::new();
    let mut below: u64 = 0;
    proof {
        lemma_children(element);
        assert(e.children.take(0) =~= Seq::empty());
        assert(children.deep_view() =~= Seq::empty());
        assert(e.children.take(e.children.len() as int) =~= e.children);
    }
    for i in 0..element.children.len()
        invariant
            1 <= id,
            id + preorder_all(e.children).len() <= u64::MAX,
            e.children == element.children.deep_view(),
            children@.len() == i,
            children.deep_view() == nodes_json(e.children.take(i as int), id + 1),
            below == preorder_all(e.children.take(i as int)).len(),
    {
        let child = &element.children[i];
        let ghost held = children.deep_view();
        proof {
            let now = e.children.take(i + 1);
            assert(now.drop_last() =~= e.children.take(i as int));
            assert(now.last() == child.deep_view());
            lemma_preorder_all_grows(e.children, i + 1);
            assert(preorder(child.deep_view()).len() >= 1);
        }
        let (node, size) = node_from(child, id + 1 + below);
        children.push(node);
        below = below + size;
        assert(children.deep_view() =~= held.push(node.deep_view()));
    }
    assert(e.children.take(e.children.len() as int) =~= e.children);
    let count: u64 = children.len() as u64;
    let is_document = same_text(element.tag.as_str(), "document");
    let node = Json::object().with("nodeId", Json::Unsigned(id)).with(
        "nodeType",
        Json::Unsigned(
            if is_document {
                9
            } else {
                1
            },
        ),
    ).with(
        "nodeName",
        if is_document {
            Json::string("#document")
        } else {
            Json::Str(to_upper(element.tag.as_str()))
        },
    ).with(
        "localName",
        Json::string(
            if is_document {
                ""
            } else {
                element.tag.as_str()
            },
        ),
    ).with("nodeValue", Json::string("")).with("childNodeCount", Json::Unsigned(count)).with(
        "children",
        Json::array(children),
    ).with("attributes", Json::strings(&element_attribute_pairs(element)));
    (node, below + 1)
}

/// A tree as the protocol describes it, its nodes numbered from 1.
pub fn cdp_node(root: &Element) -> (node: Json)
    ensures
        node.deep_view() == node_json(root.deep_view(), 1),
{
    let count: usize = nodes_of(root).len();
    assert(preorder(root.deep_view()).len() == count);
    node_from(root, 1).0
}

/// A length in tenths of a pixel as a number of pixels.
pub open spec fn pixels(tenths: int) -> JsonView {
    JsonView::Real(decimal((tenths / 10) as nat) + "."@ + decimal((tenths % 10) as nat))
}

fn pixels_json(tenths: u128) -> (json: Json)
    ensures
        json.deep_view() == pixels(tenths as int),
{
    Json::Real(decimal_text(tenths / 10).concat(".").concat(decimal_text(tenths % 10).as_str()))
}

/// A box as the protocol describes it: its corners, clockwise from the top
/// left, and its size.
pub open spec fn box_json(layout: Layout) -> JsonView {
    let x1 = pixels(layout.x as int);
    let y1 = pixels(layout.y as int);
    let x2 = pixels(layout.x + layout.width);
    let y2 = pixels(layout.y + layout.height);
    empty_object().plus(
        "model"@,
        empty_object().plus("content"@, JsonView::Array(seq![x1, y1, x2, y1, x2, y2, x1, y2])).plus(
            "width"@,
            pixels(layout.width as int),
        ).plus("height"@, pixels(layout.height as int)),
    )
}

fn box_model(layout: Layout) -> (json: Json)
    ensures
        json.deep_view() == box_json(layout),
{
    let x1: u128 = layout.x as u128;
    let y1: u128 = layout.y as u128;
    let x2: u128 = x1 + layout.width as u128;
    let y2: u128 = y1 + layout.height as u128;
    let mut corners: Vec<Json> = Vec::new();
    corners.push(pixels_json(x1));
    corners.push(pixels_json(y1));
    corners.push(pixels_json(x2));
    corners.push(pixels_json(y1));
    corners.push(pixels_json(x2));
    corners.push(pixels_json(y2));
    corners.push(pixels_json(x1));
    corners.push(pixels_json(y2));
    assert(corners.deep_view() =~= box_json(layout)->Object_0[0].1->Object_0[0].1->Array_0);
    Json::object().with(
        "model",
        Json::object().with("content", Json::array(corners)).with(
            "width",
            pixels_json(layout.width as u128),
        ).with("height", pixels_json(layout.height as u128)),
    )
}

/// What the parameters of a request are; a request without any is like one
/// with null.
pub open spec fn params_of(params: Option<JsonView>) -> JsonView {
    match params {
        Some(params) => params,
        None => JsonView::Null,
    }
}

/// The number that a request gives for a node: 0 where it gives none, and
/// its lower 32 bits where it gives a larger one.
pub open spec fn node_param(params: JsonView) -> int {
    match params.unsigned_field("nodeId"@) {
        Some(n) => n as int % 0x1_0000_0000,
        None => 0,
    }
}

fn node_id_param(params: &Json) -> (id: usize)
    ensures
        id == node_param(params.deep_view()),
{
    match params.get_u64("nodeId") {
        Some(n) => {
            let low: u64 = n % 0x1_0000_0000;
            low as usize
        },
        None => 0,
    }
}

pub open spec fn version_json() -> JsonView {
    empty_object().plus("protocolVersion"@, json_str("1.3"@)).plus(
        "product"@,
        json_str("KiteLite/0.1.0"@),
    ).plus("revision"@, json_str("local"@)).plus("userAgent"@, json_str("kite-lite"@)).plus(
        "jsVersion"@,
        json_str("Boa"@),
    )
}

/// The number of the first element that a selector names; 0 for none.
pub open spec fn selected_or_zero(root: ElementView, selector: Seq<char>) -> int {
    match selected(root, selector) {
        Some(id) => id,
        None => 0,
    }
}

pub open spec fn ids_json(ids: Seq<int>) -> JsonView {
    JsonView::Array(ids.map_values(|id: int| JsonView::Unsigned(id as u64)))
}

pub open spec fn attributes_json(page: PageView, id: int) -> JsonView {
    json_strings(
        match node_at(page.root, id) {
            Some(e) => attribute_pairs(e),
            None => Seq::empty(),
        },
    )
}

pub open spec fn box_reply(page: PageView, id: int) -> JsonView {
    match node_at(page.root, id) {
        Some(e) => match e.layout {
            Some(layout) => box_json(layout),
            None => empty_object(),
        },
        None => empty_object(),
    }
}

pub open spec fn outer_html(page: PageView, id: int) -> Seq<char> {
    match node_at(page.root, id) {
        Some(e) => html_of(e),
        None => Seq::empty(),
    }
}

pub open spec fn history_json(page: PageView) -> JsonView {
    let entry = empty_object().plus("id"@, JsonView::Unsigned(1)).plus(
        "url"@,
        json_str(url_or_blank(page)),
    ).plus("userTypedURL"@, json_str(url_or_blank(page))).plus(
        "title"@,
        json_str(text_or_empty(page.title)),
    ).plus("transitionType"@, json_str("typed"@));
    empty_object().plus("currentIndex"@, JsonView::Unsigned(0)).plus(
        "entries"@,
        JsonView::Array(seq![entry]),
    )
}

pub open spec fn resources_json(page: PageView) -> JsonView {
    let frame = empty_object().plus("id"@, json_str("kite-lite-frame"@)).plus(
        "loaderId"@,
        json_str("kite-lite-loader"@),
    ).plus("url"@, json_str(url_or_blank(page))).plus("mimeType"@, json_str("text/html"@)).plus(
        "securityOrigin"@,
        json_str(""@),
    );
    empty_object().plus(
        "frameTree"@,
        empty_object().plus("frame"@, frame).plus("resources"@, JsonView::Array(Seq::empty())),
    )
}

/// What is answered to a request that only reads the page; an empty object
/// to any other.
pub open spec fn reply_of(page: PageView, method: CdpMethod, params: JsonView) -> JsonView {
    let selector = text_or_empty(params.text_field("selector"@));
    match method {
        CdpMethod::GetVersion => version_json(),
        CdpMethod::GetTargets => empty_object().plus(
            "targetInfos"@,
            JsonView::Array(seq![target_of_page(page)]),
        ),
        CdpMethod::GetTargetInfo => empty_object().plus("targetInfo"@, target_of_page(page)),
        CdpMethod::AttachToTarget => empty_object().plus(
            "sessionId"@,
            json_str("kite-lite-session"@),
        ),
        CdpMethod::AttachToBrowserTarget => empty_object().plus(
            "sessionId"@,
            json_str("kite-lite-session"@),
        ),
        CdpMethod::CloseTarget => empty_object().plus("success"@, JsonView::Bool(true)),
        CdpMethod::GetDocument => empty_object().plus("root"@, node_json(page.root, 1)).plus(
            "backendNodeId"@,
            JsonView::Unsigned(1),
        ),
        CdpMethod::QuerySelector => empty_object().plus(
            "nodeId"@,
            JsonView::Unsigned(selected_or_zero(page.root, selector) as u64),
        ),
        CdpMethod::QuerySelectorAll => empty_object().plus(
            "nodeIds"@,
            ids_json(places(preorder(page.root), selector_test(selector))),
        ),
        CdpMethod::GetAttributes => empty_object().plus(
            "attributes"@,
            attributes_json(page, node_param(params)),
        ),
        CdpMethod::GetBoxModel => box_reply(page, node_param(params)),
        CdpMethod::GetOuterHtml => empty_object().plus(
            "outerHTML"@,
            json_str(outer_html(page, node_param(params))),
        ),
        CdpMethod::GetNavigationHistory => history_json(page),
        CdpMethod::GetResourceTree => resources_json(page),
        CdpMethod::CaptureSnapshot => empty_object().plus(
            "data"@,
            json_str(text_or_empty(page.source)),
        ),
        _ => empty_object(),
    }
}

fn one(item: Json) -> (list: Json)
    ensures
        list.deep_view() == JsonView::Array(seq![item.deep_view()]),
{
    let mut items: Vec<Json> = Vec::new();
    items.push(item);
    assert(items.deep_view() =~= seq![item.deep_view()]);
    Json::array(items)
}

fn selector_param<'a>(params: &'a Json) -> (selector: &'a str)
    ensures
        selector@ == text_or_empty(params.deep_view().text_field("selector"@)),
{
    text_param(params, "selector")
}

/// The text that stands with a key; an empty one, if none does.
pub fn text_param<'a>(params: &'a Json, key: &str) -> (text: &'a str)
    ensures
        text@ == text_or_empty(params.deep_view().text_field(key@)),
{
    match params.get_str(key) {
        Some(text) => text,
        None => {
            proof {
                reveal_strlit("");
            }
            assert(""@ =~= Seq::empty());
            ""
        },
    }
}

fn query_all(root: &Element, selector: &str) -> (ids: Json)
    ensures
        ids.deep_view() == ids_json(places(preorder(root.deep_view()), selector_test(selector@))),
{
    let ids = find_selectors(root, selector);
    let ghost numbers = places(preorder(root.deep_view()), selector_test(selector@));
    let mut items: Vec<Json> = Vec::new();
    for i in 0..ids.len()
        invariant
            items@.len() == i,
            forall|k: int|
                0 <= k < i ==> (#[trigger] items@[k]).deep_view() == JsonView::Unsigned(
                    ids@[k] as u64,
                ),
    {
        items.push(Json::Unsigned(ids[i] as u64));
    }
    proof {
        let mapped = ids@.map_values(|id: usize| id as int);
        assert forall|k: int| 0 <= k < ids@.len() implies #[trigger] numbers[k] == ids@[k] by {
            assert(mapped[k] == ids@[k] as int);
        }
        assert(mapped.len() == numbers.len());
        assert(items.deep_view() =~= numbers.map_values(
            |id: int| JsonView::Unsigned(id as u64),
        ));
    }
    Json::array(items)
}

fn history(page: &Page) -> (json: Json)
    ensures
        json.deep_view() == history_json(page.deep_view()),
{
    let entry = Json::object().with("id", Json::Unsigned(1)).with(
        "url",
        Json::string(page_url(page)),
    ).with("userTypedURL", Json::string(page_url(page))).with(
        "title",
        Json::string(or_empty(&page.title)),
    ).with("transitionType", Json::string("typed"));
    Json::object().with("currentIndex", Json::Unsigned(0)).with("entries", one(entry))
}

fn resources(page: &Page) -> (json: Json)
    ensures
        json.deep_view() == resources_json(page.deep_view()),
{
    let frame = Json::object().with("id", Json::string("kite-lite-frame")).with(
        "loaderId",
        Json::string("kite-lite-loader"),
    ).with("url", Json::string(page_url(page))).with("mimeType", Json::string("text/html")).with(
        "securityOrigin",
        Json::string(""),
    );
    let none: Vec<Json> = Vec::new();
    assert(none.deep_view() =~= Seq::empty());
    Json::object().with(
        "frameTree",
        Json::object().with("frame", frame).with("resources", Json::array(none)),
    )
}

fn attributes_reply(page: &Page, id: usize) -> (json: Json)
    ensures
        json.deep_view() == attributes_json(page.deep_view(), id as int),
{
    match find_node(&page.root, id) {
        Some(e) => Json::strings(&element_attribute_pairs(e)),
        None => {
            let none: Vec<String> = Vec::new();
            assert(none.deep_view() =~= Seq::empty());
            Json::strings(&none)
        },
    }
}

fn box_of(page: &Page, id: usize) -> (json: Json)
    ensures
        json.deep_view() == box_reply(page.deep_view(), id as int),
{
    match find_node(&page.root, id) {
        Some(e) => match e.layout {
            Some(layout) => box_model(layout),
            None => Json::object(),
        },
        None => Json::object(),
    }
}

fn outer_html_of(page: &Page, id: usize) -> (html: String)
    ensures
        html@ == outer_html(page.deep_view(), id as int),
{
    match find_node(&page.root, id) {
        Some(e) => element_html(e),
        None => String::new(),
    }
}

/// What is answered to a request that only reads the page; an empty object
/// to any other.
pub fn read_page(page: &Page, method: CdpMethod, params: &Json) -> (reply: Json)
    ensures
        reply.deep_view() == reply_of(page.deep_view(), method, params.deep_view()),
{
    match method {
        CdpMethod::GetVersion => Json::object().with(
            "protocolVersion",
            Json::string("1.3"),
        ).with("product", Json::string("KiteLite/0.1.0")).with(
            "revision",
            Json::string("local"),
        ).with("userAgent", Json::string("kite-lite")).with("jsVersion", Json::string("Boa")),
        CdpMethod::GetTargets => Json::object().with("targetInfos", one(target_info(page))),
        CdpMethod::GetTargetInfo => Json::object().with("targetInfo", target_info(page)),
        CdpMethod::AttachToTarget | CdpMethod::AttachToBrowserTarget => Json::object().with(
            "sessionId",
            Json::string("kite-lite-session"),
        ),
        CdpMethod::CloseTarget => Json::object().with("success", Json::Bool(true)),
        CdpMethod::GetDocument => Json::object().with("root", cdp_node(&page.root)).with(
            "backendNodeId",
            Json::Unsigned(1),
        ),
        CdpMethod::QuerySelector => {
            let id: u64 = match find_selector(&page.root, selector_param(params)) {
                Some(id) => id as u64,
                None => 0,
            };
            Json::object().with("nodeId", Json::Unsigned(id))
        },
        CdpMethod::QuerySelectorAll => Json::object().with(
            "nodeIds",
            query_all(&page.root, selector_param(params)),
        ),
        CdpMethod::GetAttributes => Json::object().with(
            "attributes",
            attributes_reply(page, node_id_param(params)),
        ),
        CdpMethod::GetBoxModel => box_of(page, node_id_param(params)),
        CdpMethod::GetOuterHtml => Json::object().with(
            "outerHTML",
            Json::Str(outer_html_of(page, node_id_param(params))),
        ),
        CdpMethod::GetNavigationHistory => history(page),
        CdpMethod::GetResourceTree => resources(page),
        CdpMethod::CaptureSnapshot => Json::object().with(
            "data",
            Json::string(or_empty(&page.source)),
        ),
        _ => Json::object(),
    }
}

/// What a request needs before it is answered.
#[derive(Debug)]
pub enum CdpStep {
    /// Nothing: this is the result.
    Reply(Json),
    /// A page from this address.
    Navigate(String),
    /// The outcome of this script on the session's page.
    Evaluate(String),
}

/// What a request needs before it is answered, as a mathematical value.
#[verifier::ext_equal]
pub enum StepView {
    Reply(JsonView),
    Navigate(Seq<char>),
    Evaluate(Seq<char>),
}

impl DeepView for CdpStep {
    type V = StepView;

    open spec fn deep_view(&self) -> StepView {
        match self {
            CdpStep::Reply(json) => StepView::Reply(json.deep_view()),
            CdpStep::Navigate(url) => StepView::Navigate(url@),
            CdpStep::Evaluate(script) => StepView::Evaluate(script@),
        }
    }
}

pub open spec fn error_json(message: Seq<char>) -> JsonView {
    empty_object().plus("errorText"@, json_str(message))
}

/// A navigation to an address; without one there is nowhere to go.
pub open spec fn navigation_to(url: Seq<char>) -> StepView {
    if url.len() == 0 {
        StepView::Reply(error_json("no URL available for navigation"@))
    } else {
        StepView::Navigate(url)
    }
}

/// Whether a request is a click.
pub open spec fn is_click(method: CdpMethod, params: JsonView) -> bool {
    method == CdpMethod::DispatchMouseEvent && params.text_field("type"@) == Some(
        "mousePressed"@,
    )
}

/// What a click of a request does.
pub open spec fn click_of(page: PageView, params: JsonView) -> ActionView {
    click_at(page, params.tenths_field("y"@))
}

/// What a request needs before it is answered.
pub open spec fn step_of(session: SessionView, method: CdpMethod, params: JsonView) -> StepView {
    match method {
        CdpMethod::Navigate => navigation_to(text_or_empty(params.text_field("url"@))),
        CdpMethod::Reload => navigation_to(text_or_empty(session.page.url)),
        CdpMethod::Evaluate => StepView::Evaluate(text_or_empty(params.text_field("expression"@))),
        CdpMethod::DispatchMouseEvent => match target_of(click_of(session.page, params)) {
            Some(url) if is_click(method, params) => navigation_to(url),
            _ => StepView::Reply(empty_object()),
        },
        _ => StepView::Reply(reply_of(session.page, method, params)),
    }
}

/// The session after a request has come in: a click on a field moves the
/// focus there, a key goes to the focused field.
pub open spec fn session_after(
    session: SessionView,
    method: CdpMethod,
    params: JsonView,
) -> SessionView {
    if is_click(method, params) {
        match click_of(session.page, params) {
            ActionView::Focus(id) => SessionView { focused: Some(id), ..session },
            _ => session,
        }
    } else if method == CdpMethod::DispatchKeyEvent {
        keyed(
            session,
            text_or_empty(params.text_field("type"@)),
            params.text_field("text"@),
            params.text_field("key"@),
        )
    } else {
        session
    }
}

fn plan_navigation(url: &str) -> (step: CdpStep)
    ensures
        step.deep_view() == navigation_to(url@),
{
    if url.is_empty() {
        CdpStep::Reply(navigation_error("no URL available for navigation"))
    } else {
        CdpStep::Navigate(url.to_owned())
    }
}

/// What is answered to a navigation that failed.
pub fn navigation_error(message: &str) -> (json: Json)
    ensures
        json.deep_view() == error_json(message@),
{
    Json::object().with("errorText", Json::string(message))
}

fn click(session: &mut CdpSession, params: &Json) -> (step: CdpStep)
    ensures
        step.deep_view() == step_of(
            old(session).deep_view(),
            CdpMethod::DispatchMouseEvent,
            params.deep_view(),
        ),
        final(session).deep_view() == session_after(
            old(session).deep_view(),
            CdpMethod::DispatchMouseEvent,
            params.deep_view(),
        ),
{
    let pressed = match params.get_str("type") {
        Some(kind) => same_text(kind, "mousePressed"),
        None => false,
    };
    if !pressed {
        return CdpStep::Reply(Json::object());
    }
    let action = plan_click(&session.page, params.get_tenths("y"));
    match action_target(&action) {
        Some(url) => plan_navigation(url.as_str()),
        None => {
            if let ClickAction::Focus(id) = action {
                session.focused_node_id = Some(id);
            }
            CdpStep::Reply(Json::object())
        },
    }
}

/// Takes in a request: changes the session as the request says, and returns
/// what the request needs before it is answered.
pub fn cdp_step(session: &mut CdpSession, method: CdpMethod, params: &Json) -> (step: CdpStep)
    ensures
        step.deep_view() == step_of(old(session).deep_view(), method, params.deep_view()),
        final(session).deep_view() == session_after(
            old(session).deep_view(),
            method,
            params.deep_view(),
        ),
{
    match method {
        CdpMethod::Navigate => plan_navigation(text_param(params, "url")),
        CdpMethod::Reload => plan_navigation(or_empty(&session.page.url)),
        CdpMethod::Evaluate => CdpStep::Evaluate(text_param(params, "expression").to_owned()),
        CdpMethod::DispatchMouseEvent => click(session, params),
        CdpMethod::DispatchKeyEvent => {
            dispatch_key(
                session,
                text_param(params, "type"),
                params.get_str("text"),
                params.get_str("key"),
            );
            CdpStep::Reply(Json::object())
        },
        _ => CdpStep::Reply(read_page(&session.page, method, params)),
    }
}

/// What is answered to a navigation that succeeded.
pub open spec fn navigated_json() -> JsonView {
    empty_object().plus("frameId"@, json_str("kite-lite-frame"@)).plus(
        "loaderId"@,
        json_str("kite-lite-loader"@),
    )
}

/// Ends a navigation: the page that was fetched takes the place of the
/// session's, or, where fetching failed, the session stays as it is and the
/// error is answered.
pub fn finish_navigation(session: &mut CdpSession, fetched: Result<Page, String>) -> (result: Json)
    ensures
        match fetched {
            Ok(page) => {
                &&& result.deep_view() == navigated_json()
                &&& final(session).deep_view() == (SessionView {
                    page: page.deep_view(),
                    focused: None,
                })
            },
            Err(message) => {
                &&& result.deep_view() == error_json(message@)
                &&& *final(session) == *old(session)
            },
        },
{
    match fetched {
        Ok(page) => {
            session.apply_navigation(page);
            Json::object().with("frameId", Json::string("kite-lite-frame")).with(
                "loaderId",
                Json::string("kite-lite-loader"),
            )
        },
        Err(message) => navigation_error(message.as_str()),
    }
}

/// What is answered to a script that was run.
pub fn evaluation_result(outcome: Result<String, String>) -> (result: Json)
    ensures
        result.deep_view() == match outcome {
            Ok(value) => empty_object().plus(
                "result"@,
                empty_object().plus("type"@, json_str("string"@)).plus("value"@, json_str(value@)),
            ),
            Err(message) => empty_object().plus(
                "exceptionDetails"@,
                empty_object().plus("text"@, json_str(message@)),
            ),
        },
{
    match outcome {
        Ok(value) => Json::object().with(
            "result",
            Json::object().with("type", Json::string("string")).with("value", Json::Str(value)),
        ),
        Err(message) => Json::object().with(
            "exceptionDetails",
            Json::object().with("text", Json::Str(message)),
        ),
    }
}

/// A request as it comes in.
#[derive(Debug)]
pub struct CdpRequest {
    pub id: Json,
    pub method: String,
    pub params: Json,
    pub session_id: Option<String>,
}

/// Whether a request is what a message says: its id (null, if there is none),
/// the name of a method, its parameters, and the session that it was sent to.
pub open spec fn is_request(message: JsonView, request: CdpRequest) -> bool {
    &&& request.id.deep_view() == params_of(message.field("id"@))
    &&& request.method@ == text_or_empty(message.text_field("method"@))
    &&& request.params.deep_view() == params_of(message.field("params"@))
    &&& request.session_id.deep_view() == message.text_field("sessionId"@)
}

/// Reads a request: an id (null, if there is none), the name of a method,
/// its parameters, and the session that the request was sent to.
pub fn read_request(request: &Json) -> (read: CdpRequest)
    ensures
        is_request(request.deep_view(), read),
{
    CdpRequest {
        id: field_or_null(request, "id"),
        method: text_param(request, "method").to_owned(),
        params: field_or_null(request, "params"),
        session_id: match request.get_str("sessionId") {
            Some(id) => Some(id.to_owned()),
            None => None,
        },
    }
}

/// Reads a request from the text of a message; an error, in words, where the
/// text is no JSON.
pub fn receive_request(text: &str) -> (request: Result<CdpRequest, String>)
    ensures
        match json_parsed(text@) {
            Ok(message) => request is Ok && is_request(message, request->Ok_0),
            Err(error) => request is Err && request->Err_0@ == error,
        },
{
    match parse_json(text) {
        Ok(message) => Ok(read_request(&message)),
        Err(error) => Err(error),
    }
}

fn field_or_null(json: &Json, key: &str) -> (value: Json)
    ensures
        value.deep_view() == params_of(json.deep_view().field(key@)),
{
    match json.get(key) {
        Some(value) => value.clone(),
        None => Json::Null,
    }
}

/// A message with the session that it belongs to, where it belongs to one.
pub open spec fn with_session(message: JsonView, session_id: Option<Seq<char>>) -> JsonView {
    match session_id {
        Some(id) => message.plus("sessionId"@, json_str(id)),
        None => message,
    }
}

fn add_session(message: Json, session_id: &Option<String>) -> (out: Json)
    ensures
        out.deep_view() == with_session(message.deep_view(), session_id.deep_view()),
{
    match session_id {
        Some(id) => message.with("sessionId", Json::string(id.as_str())),
        None => message,
    }
}

/// The response to a request, with the request's id and session.
pub fn cdp_response(request: &CdpRequest, result: Json) -> (response: Json)
    ensures
        response.deep_view() == with_session(
            empty_object().plus("id"@, request.id.deep_view()).plus(
                "result"@,
                result.deep_view(),
            ),
            request.session_id.deep_view(),
        ),
{
    add_session(
        Json::object().with("id", request.id.clone()).with("result", result),
        &request.session_id,
    )
}

/// The response to a request while the session cannot be had.
pub fn cdp_unavailable(request: &CdpRequest) -> (response: Json)
    ensures
        response.deep_view() == with_session(
            empty_object().plus("id"@, request.id.deep_view()).plus(
                "error"@,
                empty_object().plus("message"@, json_str("page state unavailable"@)),
            ),
            request.session_id.deep_view(),
        ),
{
    add_session(
        Json::object().with("id", request.id.clone()).with(
            "error",
            Json::object().with("message", Json::string("page state unavailable")),
        ),
        &request.session_id,
    )
}

pub open spec fn event_json(method: Seq<char>, params: JsonView) -> JsonView {
    empty_object().plus("method"@, json_str(method)).plus("params"@, params)
}

pub open spec fn frame_params() -> JsonView {
    empty_object().plus("frameId"@, json_str("kite-lite-frame"@))
}

/// The events that follow a result: those of a page that was loaded, where
/// the result is that of a navigation.
pub open spec fn load_events(result: JsonView, session_id: Option<Seq<char>>) -> Seq<JsonView> {
    if result.field("frameId"@) is Some {
        seq![
            with_session(event_json("Page.frameStartedLoading"@, frame_params()), session_id),
            with_session(
                event_json(
                    "Page.loadEventFired"@,
                    empty_object().plus("timestamp"@, pixels(0)),
                ),
                session_id,
            ),
            with_session(event_json("Page.frameStoppedLoading"@, frame_params()), session_id),
        ]
    } else {
        Seq::empty()
    }
}

/// The events that follow a result.
pub fn events_after(result: &Json, session_id: &Option<String>) -> (events: Vec<Json>)
    ensures
        events.deep_view() == load_events(result.deep_view(), session_id.deep_view()),
{
    let mut events: Vec<Json> = Vec::new();
    if result.get("frameId").is_some() {
        let started = event(
            "Page.frameStartedLoading",
            Json::object().with("frameId", Json::string("kite-lite-frame")),
        );
        let fired = event(
            "Page.loadEventFired",
            Json::object().with("timestamp", pixels_json(0)),
        );
        let stopped = event(
            "Page.frameStoppedLoading",
            Json::object().with("frameId", Json::string("kite-lite-frame")),
        );
        events.push(add_session(started, session_id));
        events.push(add_session(fired, session_id));
        events.push(add_session(stopped, session_id));
    }
    assert(events.deep_view() =~= load_events(result.deep_view(), session_id.deep_view()));
    events
}

fn event(method: &str, params: Json) -> (json: Json)
    ensures
        json.deep_view() == event_json(method@, params.deep_view()),
{
    Json::object().with("method", Json::string(method)).with("params", params)
}

/// Whether a request attaches the client to the target.
pub open spec fn attaches(method: CdpMethod, params: JsonView) -> bool {
    method == CdpMethod::AttachToTarget || (method == CdpMethod::SetAutoAttach
        && params.flag_field("autoAttach"@))
}

/// What tells a client that it is attached to the target.
pub open spec fn attached_json(page: PageView) -> JsonView {
    event_json(
        "Target.attachedToTarget"@,
        empty_object().plus("sessionId"@, json_str("kite-lite-session"@)).plus(
            "targetInfo"@,
            target_of_page(page),
        ).plus("waitingForDebugger"@, JsonView::Bool(false)),
    )
}

/// The event that follows a request that attaches the client.
pub fn attached_event(page: &Page, method: CdpMethod, params: &Json) -> (event: Option<Json>)
    ensures
        event.deep_view() == if attaches(method, params.deep_view()) {
            Some(attached_json(page.deep_view()))
        } else {
            None
        },
{
    let attaches = method == CdpMethod::AttachToTarget || (method == CdpMethod::SetAutoAttach
        && params.get_flag("autoAttach"));
    if !attaches {
        return None;
    }
    Some(
        self::event(
            "Target.attachedToTarget",
            Json::object().with("sessionId", Json::string("kite-lite-session")).with(
                "targetInfo",
                target_info(page),
            ).with("waitingForDebugger", Json::Bool(false)),
        ),
    )
}

/// The response to a request: its result, or that the session cannot be had.
pub open spec fn response_json(
    id: JsonView,
    result: Option<JsonView>,
    session_id: Option<Seq<char>>,
) -> JsonView {
    let answered = empty_object().plus("id"@, id);
    with_session(
        match result {
            Some(result) => answered.plus("result"@, result),
            None => answered.plus(
                "error"@,
                empty_object().plus("message"@, json_str("page state unavailable"@)),
            ),
        },
        session_id,
    )
}

/// The event that a request is followed by which attaches the client, as long
/// as there is a page to be attached to.
pub open spec fn attachment(
    method: CdpMethod,
    params: JsonView,
    page: Option<PageView>,
) -> Seq<JsonView> {
    match page {
        Some(page) if attaches(method, params) => seq![attached_json(page)],
        _ => Seq::empty(),
    }
}

/// All that is sent for a request, in order: the response, the events of a
/// page that was loaded, and the event of the client that was attached.
pub fn messages_for(request: &CdpRequest, result: Option<Json>, page: Option<&Page>) -> (messages:
    Vec<Json>)
    ensures
        messages.deep_view() == seq![
            response_json(
                request.id.deep_view(),
                result.deep_view(),
                request.session_id.deep_view(),
            ),
        ] + (match result {
            Some(result) => load_events(result.deep_view(), request.session_id.deep_view()),
            None => Seq::empty(),
        }) + attachment(
            method_of(request.method@),
            request.params.deep_view(),
            page.deep_view(),
        ),
{
    let mut messages: Vec<Json> = Vec::new();
    let mut events: Vec<Json> = Vec::new();
    let ghost id = request.id.deep_view();
    let ghost session_id = request.session_id.deep_view();
    let ghost answer = response_json(id, result.deep_view(), session_id);
    match result {
        Some(result) => {
            events = events_after(&result, &request.session_id);
            messages.push(cdp_response(request, result));
        },
        None => {
            messages.push(cdp_unavailable(request));
        },
    }
    assert(messages.deep_view() =~= seq![answer]);
    let ghost loaded = events.deep_view();
    messages.append(&mut events);
    assert(messages.deep_view() =~= seq![answer] + loaded);
    if let Some(page) = page {
        if let Some(event) = attached_event(page, cdp_method(request.method.as_str()), &request.params) {
            let ghost held = messages.deep_view();
            messages.push(event);
            assert(messages.deep_view() =~= held + seq![event.deep_view()]);
        }
    }
    messages
}

/// Only clicks and keys change the session when they come in: every other
/// request leaves it as it is.
pub proof fn law_reading_changes_nothing(
    session: SessionView,
    method: CdpMethod,
    params: JsonView,
)
    requires
        method != CdpMethod::DispatchMouseEvent,
        method != CdpMethod::DispatchKeyEvent,
    ensures
        session_after(session, method, params) == session,
{
}

/// No request changes the page in any way but by a key that is typed into
/// the focused field.
pub proof fn law_only_keys_change_the_page(
    session: SessionView,
    method: CdpMethod,
    params: JsonView,
)
    requires
        method != CdpMethod::DispatchKeyEvent,
    ensures
        session_after(session, method, params).page == session.page,
{
}

/// The number that a selector finds leads back to the element that it found:
/// what is written for it is that element.
pub proof fn law_found_node_is_written(page: PageView, selector: Seq<char>)
    requires
        selected(page.root, selector) is Some,
        selected(page.root, selector)->0 < 0x1_0000_0000,
    ensures
        ({
            let query = empty_object().plus("selector"@, json_str(selector));
            let found = reply_of(page, CdpMethod::QuerySelector, query).field("nodeId"@);
            let written = reply_of(
                page,
                CdpMethod::GetOuterHtml,
                empty_object().plus("nodeId"@, found->0),
            );
            let id = selected(page.root, selector)->0;
            &&& found == Some(JsonView::Unsigned(id as u64))
            &&& node_at(page.root, id) is Some
            &&& written.field("outerHTML"@) == Some(
                json_str(html_of(node_at(page.root, id)->0)),
            )
        }),
{
    let id = selected(page.root, selector)->0;
    crate::tree::law_selected_is_the_first_named(page.root, selector);
    lemma_only_field("selector"@, json_str(selector));
    lemma_only_field("nodeId"@, JsonView::Unsigned(id as u64));
    lemma_only_field("outerHTML"@, json_str(html_of(node_at(page.root, id)->0)));
}

proof fn lemma_only_field(key: Seq<char>, value: JsonView)
    ensures
        empty_object().plus(key, value).field(key) == Some(value),
{
    let entries = Seq::<(Seq<char>, JsonView)>::empty().push((key, value));
    lemma_first_where_is(entries, crate::json::json_key_test(key), 0);
}

/// The nodes of a document are numbered as every other request numbers
/// them: the node of element number `id` has that number, and so has each of
/// its children the number of that child.
pub proof fn law_document_has_the_numbers(root: ElementView, id: int, i: int)
    requires
        1 <= id <= preorder(root).len(),
        0 <= i < preorder(root)[id - 1].children.len(),
    ensures
        ({
            let e = preorder(root)[id - 1];
            let child_id = id + 1 + preorder_all(e.children.take(i)).len();
            &&& node_json(e, id).field("nodeId"@) == Some(JsonView::Unsigned(id as u64))
            &&& nodes_json(e.children, id + 1).len() == e.children.len()
            &&& nodes_json(e.children, id + 1)[i] == node_json(e.children[i], child_id)
            &&& node_at(root, child_id) == Some(e.children[i])
        }),
{
    let e = preorder(root)[id - 1];
    let child_id = id + 1 + preorder_all(e.children.take(i)).len();
    lemma_nodes_json(e.children, id + 1, i);
    lemma_child_place(e.children, i);
    let entries = node_json(e, id)->Object_0;
    assert(entries[0] == ("nodeId"@, JsonView::Unsigned(id as u64)));
    lemma_first_where_is(entries, crate::json::json_key_test("nodeId"@), 0);
    assert(preorder(e)[child_id - id] == preorder_all(e.children)[child_id - id - 1]);
    crate::tree::law_numbers_of_a_subtree(root, id, child_id);
}

proof fn lemma_nodes_json(s: Seq<ElementView>, id: int, i: int)
    requires
        0 <= i < s.len(),
    ensures
        nodes_json(s, id).len() == s.len(),
        nodes_json(s, id)[i] == node_json(s[i], id + preorder_all(s.take(i)).len()),
    decreases s.len(),
{
    let head = s.drop_last();
    if head.len() > 0 {
        lemma_nodes_json(head, id, if i < head.len() { i } else { 0 });
    } else {
        assert(nodes_json(head, id).len() == 0);
    }
    if i < head.len() {
        assert(head.take(i) =~= s.take(i));
    } else {
        assert(s.take(i) =~= head);
    }
}

proof fn lemma_child_place(s: Seq<ElementView>, i: int)
    requires
        0 <= i < s.len(),
    ensures
        preorder_all(s.take(i)).len() < preorder_all(s).len(),
        preorder_all(s)[preorder_all(s.take(i)).len() as int] == s[i],
    decreases s.len(),
{
    let head = s.drop_last();
    if i < head.len() {
        lemma_child_place(head, i);
        assert(head.take(i) =~= s.take(i));
    } else {
        assert(s.take(i) =~= head);
        assert(preorder(s.last())[0] == s.last());
    }
}

/// The events of a page that was loaded follow a navigation that succeeded,
/// and no navigation that failed.
pub proof fn law_load_events_follow_navigations(
    message: Seq<char>,
    session_id: Option<Seq<char>>,
)
    ensures
        load_events(navigated_json(), session_id).len() == 3,
        load_events(error_json(message), session_id).len() == 0,
{
    reveal_strlit("frameId");
    reveal_strlit("errorText");
    assert("frameId"@.len() != "errorText"@.len());
    let test = crate::json::json_key_test("frameId"@);
    lemma_first_where_is(navigated_json()->Object_0, test, 0);
    lemma_first_where_is(error_json(message)->Object_0, test, 1);
}

proof fn lemma_session_of(
    first: Seq<char>,
    a: JsonView,
    second: Seq<char>,
    b: JsonView,
    session_id: Option<Seq<char>>,
)
    requires
        first != "sessionId"@,
        second != "sessionId"@,
    ensures
        with_session(empty_object().plus(first, a).plus(second, b), session_id).text_field(
            "sessionId"@,
        ) == session_id,
{
    let message = with_session(empty_object().plus(first, a).plus(second, b), session_id);
    lemma_first_where_is(message->Object_0, crate::json::json_key_test("sessionId"@), 2);
}

/// What is answered to a request, and each event that follows, belongs to
/// the session of the request.
pub proof fn law_answers_stay_in_their_session(
    id: JsonView,
    result: JsonView,
    session_id: Option<Seq<char>>,
)
    ensures
        with_session(empty_object().plus("id"@, id).plus("result"@, result), session_id).text_field(
            "sessionId"@,
        ) == session_id,
        forall|k: int|
            0 <= k < load_events(result, session_id).len() ==> (#[trigger] load_events(
                result,
                session_id,
            )[k]).text_field("sessionId"@) == session_id,
{
    reveal_strlit("sessionId");
    reveal_strlit("id");
    reveal_strlit("result");
    reveal_strlit("method");
    reveal_strlit("params");
    assert("id"@.len() < 9 && "result"@.len() < 9 && "method"@.len() < 9 && "params"@.len() < 9);
    lemma_session_of("id"@, id, "result"@, result, session_id);
    assert forall|k: int| 0 <= k < load_events(result, session_id).len() implies (
    #[trigger] load_events(result, session_id)[k]).text_field("sessionId"@) == session_id by {
        let started = json_str("Page.frameStartedLoading"@);
        let fired = json_str("Page.loadEventFired"@);
        let stopped = json_str("Page.frameStoppedLoading"@);
        let time = empty_object().plus("timestamp"@, pixels(0));
        lemma_session_of("method"@, started, "params"@, frame_params(), session_id);
        lemma_session_of("method"@, fired, "params"@, time, session_id);
        lemma_session_of("method"@, stopped, "params"@, frame_params(), session_id);
    }
}

/// The number of a node as the parameter of a request.
pub open spec fn node_query(id: int) -> JsonView {
    empty_object().plus("nodeId"@, JsonView::Unsigned(id as u64))
}

/// Whether an element is written as HTML that begins with its tag.
pub open spec fn is_written_with_tag(page: PageView, id: int, selector: Seq<char>) -> bool {
    match node_at(page.root, id) {
        Some(e) => {
            &&& reply_of(page, CdpMethod::GetOuterHtml, node_query(id)).field("outerHTML"@) == Some(
                json_str(html_of(e)),
            )
            &&& stands_at(html_of(e), "<"@ + e.tag, 0)
            &&& selector != "*"@ ==> ascii_lower(e.tag) == ascii_lower(selector)
        },
        None => false,
    }
}

proof fn lemma_html_begins(e: ElementView)
    requires
        e.tag != "document"@,
    ensures
        stands_at(html_of(e), "<"@ + e.tag, 0),
{
    let start = "<"@ + e.tag;
    assert(html_of(e).subrange(0, start.len() as int) =~= start);
}

proof fn lemma_node_query(id: int)
    requires
        0 <= id < 0x1_0000_0000,
    ensures
        node_param(node_query(id)) == id,
{
    lemma_only_field("nodeId"@, JsonView::Unsigned(id as u64));
}

/// The requests for nodes agree: the numbers of all nodes that a selector
/// names come in increasing order, the first of them is the answer to the
/// request for one (0, if there is none), and each is the number of a node
/// that is written with a tag that the selector names. Number 0 is that of
/// no node. None of these requests changes the session.
pub proof fn law_queries_agree(session: SessionView, selector: Seq<char>, params: JsonView)
    requires
        preorder(session.page.root).len() < 0x1_0000_0000,
    ensures
        ({
            let page = session.page;
            let query = empty_object().plus("selector"@, json_str(selector));
            let all = places(preorder(page.root), selector_test(selector));
            &&& reply_of(page, CdpMethod::QuerySelectorAll, query).field("nodeIds"@) == Some(
                ids_json(all),
            )
            &&& forall|j: int, k: int| 0 <= j < k < all.len() ==> all[j] < all[k]
            &&& reply_of(page, CdpMethod::QuerySelector, query).field("nodeId"@) == Some(
                JsonView::Unsigned(
                    (if all.len() > 0 {
                        all[0]
                    } else {
                        0
                    }) as u64,
                ),
            )
            &&& forall|k: int|
                0 <= k < all.len() ==> is_written_with_tag(page, #[trigger] all[k], selector)
            &&& reply_of(page, CdpMethod::GetOuterHtml, node_query(0)) == empty_object().plus(
                "outerHTML"@,
                json_str(Seq::empty()),
            )
            &&& reply_of(page, CdpMethod::GetAttributes, node_query(0)) == empty_object().plus(
                "attributes"@,
                json_strings(Seq::empty()),
            )
            &&& reply_of(page, CdpMethod::GetBoxModel, node_query(0)) == empty_object()
        }),
        session_after(session, CdpMethod::QuerySelector, params) == session,
        session_after(session, CdpMethod::QuerySelectorAll, params) == session,
        session_after(session, CdpMethod::GetOuterHtml, params) == session,
        session_after(session, CdpMethod::GetAttributes, params) == session,
        session_after(session, CdpMethod::GetBoxModel, params) == session,
{
    let page = session.page;
    let nodes = preorder(page.root);
    let test = selector_test(selector);
    let all = places(nodes, test);
    lemma_only_field("selector"@, json_str(selector));
    lemma_only_field("nodeIds"@, ids_json(all));
    crate::tree::law_first_of_all_selected(page.root, selector);
    lemma_places(nodes, test);
    lemma_only_field(
        "nodeId"@,
        JsonView::Unsigned(selected_or_zero(page.root, selector) as u64),
    );
    lemma_node_query(0);
    assert forall|k: int| 0 <= k < all.len() implies is_written_with_tag(
        page,
        #[trigger] all[k],
        selector,
    ) by {
        let id = all[k];
        let e = nodes[id - 1];
        assert(test(e));
        lemma_node_query(id);
        lemma_html_begins(e);
        lemma_only_field("outerHTML"@, json_str(html_of(e)));
    }
}

proof fn lemma_method_names()
    ensures
        "Browser.getVersion"@ != "Target.getTargets"@,
        "Browser.getVersion"@ != "Target.getTargetInfo"@,
        "Browser.getVersion"@ != "Target.attachToTarget"@,
        "Browser.getVersion"@ != "Target.attachToBrowserTarget"@,
        "Browser.getVersion"@ != "Target.setAutoAttach"@,
        "Browser.getVersion"@ != "Target.closeTarget"@,
        "Browser.getVersion"@ != "DOM.getDocument"@,
        "Browser.getVersion"@ != "DOM.querySelector"@,
        "Browser.getVersion"@ != "DOM.querySelectorAll"@,
        "Browser.getVersion"@ != "DOM.getAttributes"@,
        "Browser.getVersion"@ != "DOM.getBoxModel"@,
        "Browser.getVersion"@ != "DOM.getOuterHTML"@,
        "Browser.getVersion"@ != "Page.getNavigationHistory"@,
        "Browser.getVersion"@ != "Page.getResourceTree"@,
        "Browser.getVersion"@ != "Page.captureSnapshot"@,
        "Browser.getVersion"@ != "Page.navigate"@,
        "Browser.getVersion"@ != "Page.reload"@,
        "Browser.getVersion"@ != "Input.dispatchMouseEvent"@,
        "Browser.getVersion"@ != "Input.dispatchKeyEvent"@,
        "Browser.getVersion"@ != "Runtime.evaluate"@,
        "Target.getTargets"@ != "Target.getTargetInfo"@,
        "Target.getTargets"@ != "Target.attachToTarget"@,
        "Target.getTargets"@ != "Target.attachToBrowserTarget"@,
        "Target.getTargets"@ != "Target.setAutoAttach"@,
        "Target.getTargets"@ != "Target.closeTarget"@,
        "Target.getTargets"@ != "DOM.getDocument"@,
        "Target.getTargets"@ != "DOM.querySelector"@,
        "Target.getTargets"@ != "DOM.querySelectorAll"@,
        "Target.getTargets"@ != "DOM.getAttributes"@,
        "Target.getTargets"@ != "DOM.getBoxModel"@,
        "Target.getTargets"@ != "DOM.getOuterHTML"@,
        "Target.getTargets"@ != "Page.getNavigationHistory"@,
        "Target.getTargets"@ != "Page.getResourceTree"@,
        "Target.getTargets"@ != "Page.captureSnapshot"@,
        "Target.getTargets"@ != "Page.navigate"@,
        "Target.getTargets"@ != "Page.reload"@,
        "Target.getTargets"@ != "Input.dispatchMouseEvent"@,
        "Target.getTargets"@ != "Input.dispatchKeyEvent"@,
        "Target.getTargets"@ != "Runtime.evaluate"@,
        "Target.getTargetInfo"@ != "Target.attachToTarget"@,
        "Target.getTargetInfo"@ != "Target.attachToBrowserTarget"@,
        "Target.getTargetInfo"@ != "Target.setAutoAttach"@,
        "Target.getTargetInfo"@ != "Target.closeTarget"@,
        "Target.getTargetInfo"@ != "DOM.getDocument"@,
        "Target.getTargetInfo"@ != "DOM.querySelector"@,
        "Target.getTargetInfo"@ != "DOM.querySelectorAll"@,
        "Target.getTargetInfo"@ != "DOM.getAttributes"@,
        "Target.getTargetInfo"@ != "DOM.getBoxModel"@,
        "Target.getTargetInfo"@ != "DOM.getOuterHTML"@,
        "Target.getTargetInfo"@ != "Page.getNavigationHistory"@,
        "Target.getTargetInfo"@ != "Page.getResourceTree"@,
        "Target.getTargetInfo"@ != "Page.captureSnapshot"@,
        "Target.getTargetInfo"@ != "Page.navigate"@,
        "Target.getTargetInfo"@ != "Page.reload"@,
        "Target.getTargetInfo"@ != "Input.dispatchMouseEvent"@,
        "Target.getTargetInfo"@ != "Input.dispatchKeyEvent"@,
        "Target.getTargetInfo"@ != "Runtime.evaluate"@,
        "Target.attachToTarget"@ != "Target.attachToBrowserTarget"@,
        "Target.attachToTarget"@ != "Target.setAutoAttach"@,
        "Target.attachToTarget"@ != "Target.closeTarget"@,
        "Target.attachToTarget"@ != "DOM.getDocument"@,
        "Target.attachToTarget"@ != "DOM.querySelector"@,
        "Target.attachToTarget"@ != "DOM.querySelectorAll"@,
        "Target.attachToTarget"@ != "DOM.getAttributes"@,
        "Target.attachToTarget"@ != "DOM.getBoxModel"@,
        "Target.attachToTarget"@ != "DOM.getOuterHTML"@,
        "Target.attachToTarget"@ != "Page.getNavigationHistory"@,
        "Target.attachToTarget"@ != "Page.getResourceTree"@,
        "Target.attachToTarget"@ != "Page.captureSnapshot"@,
        "Target.attachToTarget"@ != "Page.navigate"@,
        "Target.attachToTarget"@ != "Page.reload"@,
        "Target.attachToTarget"@ != "Input.dispatchMouseEvent"@,
        "Target.attachToTarget"@ != "Input.dispatchKeyEvent"@,
        "Target.attachToTarget"@ != "Runtime.evaluate"@,
        "Target.attachToBrowserTarget"@ != "Target.setAutoAttach"@,
        "Target.attachToBrowserTarget"@ != "Target.closeTarget"@,
        "Target.attachToBrowserTarget"@ != "DOM.getDocument"@,
        "Target.attachToBrowserTarget"@ != "DOM.querySelector"@,
        "Target.attachToBrowserTarget"@ != "DOM.querySelectorAll"@,
        "Target.attachToBrowserTarget"@ != "DOM.getAttributes"@,
        "Target.attachToBrowserTarget"@ != "DOM.getBoxModel"@,
        "Target.attachToBrowserTarget"@ != "DOM.getOuterHTML"@,
        "Target.attachToBrowserTarget"@ != "Page.getNavigationHistory"@,
        "Target.attachToBrowserTarget"@ != "Page.getResourceTree"@,
        "Target.attachToBrowserTarget"@ != "Page.captureSnapshot"@,
        "Target.attachToBrowserTarget"@ != "Page.navigate"@,
        "Target.attachToBrowserTarget"@ != "Page.reload"@,
        "Target.attachToBrowserTarget"@ != "Input.dispatchMouseEvent"@,
        "Target.attachToBrowserTarget"@ != "Input.dispatchKeyEvent"@,
        "Target.attachToBrowserTarget"@ != "Runtime.evaluate"@,
        "Target.setAutoAttach"@ != "Target.closeTarget"@,
        "Target.setAutoAttach"@ != "DOM.getDocument"@,
        "Target.setAutoAttach"@ != "DOM.querySelector"@,
        "Target.setAutoAttach"@ != "DOM.querySelectorAll"@,
        "Target.setAutoAttach"@ != "DOM.getAttributes"@,
        "Target.setAutoAttach"@ != "DOM.getBoxModel"@,
        "Target.setAutoAttach"@ != "DOM.getOuterHTML"@,
        "Target.setAutoAttach"@ != "Page.getNavigationHistory"@,
        "Target.setAutoAttach"@ != "Page.getResourceTree"@,
        "Target.setAutoAttach"@ != "Page.captureSnapshot"@,
        "Target.setAutoAttach"@ != "Page.navigate"@,
        "Target.setAutoAttach"@ != "Page.reload"@,
        "Target.setAutoAttach"@ != "Input.dispatchMouseEvent"@,
        "Target.setAutoAttach"@ != "Input.dispatchKeyEvent"@,
        "Target.setAutoAttach"@ != "Runtime.evaluate"@,
        "Target.closeTarget"@ != "DOM.getDocument"@,
        "Target.closeTarget"@ != "DOM.querySelector"@,
        "Target.closeTarget"@ != "DOM.querySelectorAll"@,
        "Target.closeTarget"@ != "DOM.getAttributes"@,
        "Target.closeTarget"@ != "DOM.getBoxModel"@,
        "Target.closeTarget"@ != "DOM.getOuterHTML"@,
        "Target.closeTarget"@ != "Page.getNavigationHistory"@,
        "Target.closeTarget"@ != "Page.getResourceTree"@,
        "Target.closeTarget"@ != "Page.captureSnapshot"@,
        "Target.closeTarget"@ != "Page.navigate"@,
        "Target.closeTarget"@ != "Page.reload"@,
        "Target.closeTarget"@ != "Input.dispatchMouseEvent"@,
        "Target.closeTarget"@ != "Input.dispatchKeyEvent"@,
        "Target.closeTarget"@ != "Runtime.evaluate"@,
        "DOM.getDocument"@ != "DOM.querySelector"@,
        "DOM.getDocument"@ != "DOM.querySelectorAll"@,
        "DOM.getDocument"@ != "DOM.getAttributes"@,
        "DOM.getDocument"@ != "DOM.getBoxModel"@,
        "DOM.getDocument"@ != "DOM.getOuterHTML"@,
        "DOM.getDocument"@ != "Page.getNavigationHistory"@,
        "DOM.getDocument"@ != "Page.getResourceTree"@,
        "DOM.getDocument"@ != "Page.captureSnapshot"@,
        "DOM.getDocument"@ != "Page.navigate"@,
        "DOM.getDocument"@ != "Page.reload"@,
        "DOM.getDocument"@ != "Input.dispatchMouseEvent"@,
        "DOM.getDocument"@ != "Input.dispatchKeyEvent"@,
        "DOM.getDocument"@ != "Runtime.evaluate"@,
        "DOM.querySelector"@ != "DOM.querySelectorAll"@,
        "DOM.querySelector"@ != "DOM.getAttributes"@,
        "DOM.querySelector"@ != "DOM.getBoxModel"@,
        "DOM.querySelector"@ != "DOM.getOuterHTML"@,
        "DOM.querySelector"@ != "Page.getNavigationHistory"@,
        "DOM.querySelector"@ != "Page.getResourceTree"@,
        "DOM.querySelector"@ != "Page.captureSnapshot"@,
        "DOM.querySelector"@ != "Page.navigate"@,
        "DOM.querySelector"@ != "Page.reload"@,
        "DOM.querySelector"@ != "Input.dispatchMouseEvent"@,
        "DOM.querySelector"@ != "Input.dispatchKeyEvent"@,
        "DOM.querySelector"@ != "Runtime.evaluate"@,
        "DOM.querySelectorAll"@ != "DOM.getAttributes"@,
        "DOM.querySelectorAll"@ != "DOM.getBoxModel"@,
        "DOM.querySelectorAll"@ != "DOM.getOuterHTML"@,
        "DOM.querySelectorAll"@ != "Page.getNavigationHistory"@,
        "DOM.querySelectorAll"@ != "Page.getResourceTree"@,
        "DOM.querySelectorAll"@ != "Page.captureSnapshot"@,
        "DOM.querySelectorAll"@ != "Page.navigate"@,
        "DOM.querySelectorAll"@ != "Page.reload"@,
        "DOM.querySelectorAll"@ != "Input.dispatchMouseEvent"@,
        "DOM.querySelectorAll"@ != "Input.dispatchKeyEvent"@,
        "DOM.querySelectorAll"@ != "Runtime.evaluate"@,
        "DOM.getAttributes"@ != "DOM.getBoxModel"@,
        "DOM.getAttributes"@ != "DOM.getOuterHTML"@,
        "DOM.getAttributes"@ != "Page.getNavigationHistory"@,
        "DOM.getAttributes"@ != "Page.getResourceTree"@,
        "DOM.getAttributes"@ != "Page.captureSnapshot"@,
        "DOM.getAttributes"@ != "Page.navigate"@,
        "DOM.getAttributes"@ != "Page.reload"@,
        "DOM.getAttributes"@ != "Input.dispatchMouseEvent"@,
        "DOM.getAttributes"@ != "Input.dispatchKeyEvent"@,
        "DOM.getAttributes"@ != "Runtime.evaluate"@,
        "DOM.getBoxModel"@ != "DOM.getOuterHTML"@,
        "DOM.getBoxModel"@ != "Page.getNavigationHistory"@,
        "DOM.getBoxModel"@ != "Page.getResourceTree"@,
        "DOM.getBoxModel"@ != "Page.captureSnapshot"@,
        "DOM.getBoxModel"@ != "Page.navigate"@,
        "DOM.getBoxModel"@ != "Page.reload"@,
        "DOM.getBoxModel"@ != "Input.dispatchMouseEvent"@,
        "DOM.getBoxModel"@ != "Input.dispatchKeyEvent"@,
        "DOM.getBoxModel"@ != "Runtime.evaluate"@,
        "DOM.getOuterHTML"@ != "Page.getNavigationHistory"@,
        "DOM.getOuterHTML"@ != "Page.getResourceTree"@,
        "DOM.getOuterHTML"@ != "Page.captureSnapshot"@,
        "DOM.getOuterHTML"@ != "Page.navigate"@,
        "DOM.getOuterHTML"@ != "Page.reload"@,
        "DOM.getOuterHTML"@ != "Input.dispatchMouseEvent"@,
        "DOM.getOuterHTML"@ != "Input.dispatchKeyEvent"@,
        "DOM.getOuterHTML"@ != "Runtime.evaluate"@,
        "Page.getNavigationHistory"@ != "Page.getResourceTree"@,
        "Page.getNavigationHistory"@ != "Page.captureSnapshot"@,
        "Page.getNavigationHistory"@ != "Page.navigate"@,
        "Page.getNavigationHistory"@ != "Page.reload"@,
        "Page.getNavigationHistory"@ != "Input.dispatchMouseEvent"@,
        "Page.getNavigationHistory"@ != "Input.dispatchKeyEvent"@,
        "Page.getNavigationHistory"@ != "Runtime.evaluate"@,
        "Page.getResourceTree"@ != "Page.captureSnapshot"@,
        "Page.getResourceTree"@ != "Page.navigate"@,
        "Page.getResourceTree"@ != "Page.reload"@,
        "Page.getResourceTree"@ != "Input.dispatchMouseEvent"@,
        "Page.getResourceTree"@ != "Input.dispatchKeyEvent"@,
        "Page.getResourceTree"@ != "Runtime.evaluate"@,
        "Page.captureSnapshot"@ != "Page.navigate"@,
        "Page.captureSnapshot"@ != "Page.reload"@,
        "Page.captureSnapshot"@ != "Input.dispatchMouseEvent"@,
        "Page.captureSnapshot"@ != "Input.dispatchKeyEvent"@,
        "Page.captureSnapshot"@ != "Runtime.evaluate"@,
        "Page.navigate"@ != "Page.reload"@,
        "Page.navigate"@ != "Input.dispatchMouseEvent"@,
        "Page.navigate"@ != "Input.dispatchKeyEvent"@,
        "Page.navigate"@ != "Runtime.evaluate"@,
        "Page.reload"@ != "Input.dispatchMouseEvent"@,
        "Page.reload"@ != "Input.dispatchKeyEvent"@,
        "Page.reload"@ != "Runtime.evaluate"@,
        "Input.dispatchMouseEvent"@ != "Input.dispatchKeyEvent"@,
        "Input.dispatchMouseEvent"@ != "Runtime.evaluate"@,
        "Input.dispatchKeyEvent"@ != "Runtime.evaluate"@,
{
    reveal_strlit("Browser.getVersion");
    reveal_strlit("Target.getTargets");
    reveal_strlit("Target.getTargetInfo");
    reveal_strlit("Target.attachToTarget");
    reveal_strlit("Target.attachToBrowserTarget");
    reveal_strlit("Target.setAutoAttach");
    reveal_strlit("Target.closeTarget");
    reveal_strlit("DOM.getDocument");
    reveal_strlit("DOM.querySelector");
    reveal_strlit("DOM.querySelectorAll");
    reveal_strlit("DOM.getAttributes");
    reveal_strlit("DOM.getBoxModel");
    reveal_strlit("DOM.getOuterHTML");
    reveal_strlit("Page.getNavigationHistory");
    reveal_strlit("Page.getResourceTree");
    reveal_strlit("Page.captureSnapshot");
    reveal_strlit("Page.navigate");
    reveal_strlit("Page.reload");
    reveal_strlit("Input.dispatchMouseEvent");
    reveal_strlit("Input.dispatchKeyEvent");
    reveal_strlit("Runtime.evaluate");
    assert("Browser.getVersion"@.len() == 18);
    assert("Target.getTargets"@.len() == 17);
    assert("Target.getTargetInfo"@.len() == 20);
    assert("Target.attachToTarget"@.len() == 21);
    assert("Target.attachToBrowserTarget"@.len() == 28);
    assert("Target.setAutoAttach"@.len() == 20);
    assert("Target.closeTarget"@.len() == 18);
    assert("DOM.getDocument"@.len() == 15);
    assert("DOM.querySelector"@.len() == 17);
    assert("DOM.querySelectorAll"@.len() == 20);
    assert("DOM.getAttributes"@.len() == 17);
    assert("DOM.getBoxModel"@.len() == 15);
    assert("DOM.getOuterHTML"@.len() == 16);
    assert("Page.getNavigationHistory"@.len() == 25);
    assert("Page.getResourceTree"@.len() == 20);
    assert("Page.captureSnapshot"@.len() == 20);
    assert("Page.navigate"@.len() == 13);
    assert("Page.reload"@.len() == 11);
    assert("Input.dispatchMouseEvent"@.len() == 24);
    assert("Input.dispatchKeyEvent"@.len() == 22);
    assert("Runtime.evaluate"@.len() == 16);
    assert("Browser.getVersion"@[0] == 'B');
    assert("Target.closeTarget"@[0] == 'T');
    assert("Target.getTargets"@[0] == 'T');
    assert("DOM.querySelector"@[0] == 'D');
    assert("DOM.getAttributes"@[0] == 'D');
    assert("Target.getTargetInfo"@[7] == 'g');
    assert("Target.setAutoAttach"@[7] == 's');
    assert("Target.getTargetInfo"@[0] == 'T');
    assert("DOM.querySelectorAll"@[0] == 'D');
    assert("Page.getResourceTree"@[0] == 'P');
    assert("Page.captureSnapshot"@[0] == 'P');
    assert("Target.setAutoAttach"@[0] == 'T');
    assert("DOM.getDocument"@[7] == 'D');
    assert("DOM.getBoxModel"@[7] == 'B');
    assert("DOM.querySelector"@[4] == 'q');
    assert("DOM.getAttributes"@[4] == 'g');
    assert("DOM.getOuterHTML"@[0] == 'D');
    assert("Runtime.evaluate"@[0] == 'R');
    assert("Page.getResourceTree"@[5] == 'g');
    assert("Page.captureSnapshot"@[5] == 'c');
}

/// Each request is named by one name, and by no other.
pub proof fn law_methods_go_by_name(name: Seq<char>)
    ensures
        method_of(name) == CdpMethod::GetVersion <==> name == "Browser.getVersion"@,
        method_of(name) == CdpMethod::GetTargets <==> name == "Target.getTargets"@,
        method_of(name) == CdpMethod::GetTargetInfo <==> name == "Target.getTargetInfo"@,
        method_of(name) == CdpMethod::AttachToTarget <==> name == "Target.attachToTarget"@,
        method_of(name) == CdpMethod::AttachToBrowserTarget <==> name == "Target.attachToBrowserTarget"@,
        method_of(name) == CdpMethod::SetAutoAttach <==> name == "Target.setAutoAttach"@,
        method_of(name) == CdpMethod::CloseTarget <==> name == "Target.closeTarget"@,
        method_of(name) == CdpMethod::GetDocument <==> name == "DOM.getDocument"@,
        method_of(name) == CdpMethod::QuerySelector <==> name == "DOM.querySelector"@,
        method_of(name) == CdpMethod::QuerySelectorAll <==> name == "DOM.querySelectorAll"@,
        method_of(name) == CdpMethod::GetAttributes <==> name == "DOM.getAttributes"@,
        method_of(name) == CdpMethod::GetBoxModel <==> name == "DOM.getBoxModel"@,
        method_of(name) == CdpMethod::GetOuterHtml <==> name == "DOM.getOuterHTML"@,
        method_of(name) == CdpMethod::GetNavigationHistory <==> name == "Page.getNavigationHistory"@,
        method_of(name) == CdpMethod::GetResourceTree <==> name == "Page.getResourceTree"@,
        method_of(name) == CdpMethod::CaptureSnapshot <==> name == "Page.captureSnapshot"@,
        method_of(name) == CdpMethod::Navigate <==> name == "Page.navigate"@,
        method_of(name) == CdpMethod::Reload <==> name == "Page.reload"@,
        method_of(name) == CdpMethod::DispatchMouseEvent <==> name == "Input.dispatchMouseEvent"@,
        method_of(name) == CdpMethod::DispatchKeyEvent <==> name == "Input.dispatchKeyEvent"@,
        method_of(name) == CdpMethod::Evaluate <==> name == "Runtime.evaluate"@,
{
    lemma_method_names();
}

proof fn lemma_node_keys()
    ensures
        "nodeId"@ != "nodeType"@,
        "nodeId"@ != "nodeName"@,
        "nodeId"@ != "localName"@,
        "nodeId"@ != "nodeValue"@,
        "nodeId"@ != "childNodeCount"@,
        "nodeId"@ != "children"@,
        "nodeId"@ != "attributes"@,
        "nodeType"@ != "nodeName"@,
        "nodeType"@ != "localName"@,
        "nodeType"@ != "nodeValue"@,
        "nodeType"@ != "childNodeCount"@,
        "nodeType"@ != "children"@,
        "nodeType"@ != "attributes"@,
        "nodeName"@ != "localName"@,
        "nodeName"@ != "nodeValue"@,
        "nodeName"@ != "childNodeCount"@,
        "nodeName"@ != "children"@,
        "nodeName"@ != "attributes"@,
        "localName"@ != "nodeValue"@,
        "localName"@ != "childNodeCount"@,
        "localName"@ != "children"@,
        "localName"@ != "attributes"@,
        "nodeValue"@ != "childNodeCount"@,
        "nodeValue"@ != "children"@,
        "nodeValue"@ != "attributes"@,
        "childNodeCount"@ != "children"@,
        "childNodeCount"@ != "attributes"@,
        "children"@ != "attributes"@,
{
    reveal_strlit("nodeId");
    reveal_strlit("nodeType");
    reveal_strlit("nodeName");
    reveal_strlit("localName");
    reveal_strlit("nodeValue");
    reveal_strlit("childNodeCount");
    reveal_strlit("children");
    reveal_strlit("attributes");
    assert("nodeId"@.len() == 6);
    assert("nodeType"@.len() == 8);
    assert("nodeName"@.len() == 8);
    assert("localName"@.len() == 9);
    assert("nodeValue"@.len() == 9);
    assert("childNodeCount"@.len() == 14);
    assert("children"@.len() == 8);
    assert("attributes"@.len() == 10);
    assert("nodeType"@[4] == 'T');
    assert("nodeName"@[4] == 'N');
    assert("nodeType"@[0] == 'n');
    assert("children"@[0] == 'c');
    assert("nodeName"@[0] == 'n');
    assert("localName"@[0] == 'l');
    assert("nodeValue"@[0] == 'n');
}

/// A node tells its number; that it is the document or an element, by name;
/// how many children it has, and those children as nodes; and its attributes.
pub proof fn law_node_tells_its_element(e: ElementView, id: int)
    ensures
        ({
            let node = node_json(e, id);
            let document = e.tag == "document"@;
            &&& node.field("nodeId"@) == Some(JsonView::Unsigned(id as u64))
            &&& node.field("nodeType"@) == Some(
                JsonView::Unsigned(
                    if document {
                        9
                    } else {
                        1
                    },
                ),
            )
            &&& node.field("nodeName"@) == Some(
                JsonView::Str(
                    if document {
                        "#document"@
                    } else {
                        upper_cased(e.tag)
                    },
                ),
            )
            &&& !document ==> node.field("localName"@) == Some(JsonView::Str(e.tag))
            &&& document ==> node.field("localName"@) == Some(JsonView::Str(""@))
            &&& node.field("childNodeCount"@) == Some(
                JsonView::Unsigned(e.children.len() as u64),
            )
            &&& node.field("children"@) == Some(JsonView::Array(nodes_json(e.children, id + 1)))
            &&& node.field("attributes"@) == Some(
                JsonView::Array(attribute_pairs(e).map_values(|s: Seq<char>| JsonView::Str(s))),
            )
        }),
{
    lemma_node_keys();
    let entries = node_json(e, id)->Object_0;
    law_field_is_the_first_of_its_key(entries, "nodeId"@, 0);
    law_field_is_the_first_of_its_key(entries, "nodeType"@, 1);
    law_field_is_the_first_of_its_key(entries, "nodeName"@, 2);
    law_field_is_the_first_of_its_key(entries, "localName"@, 3);
    law_field_is_the_first_of_its_key(entries, "childNodeCount"@, 5);
    law_field_is_the_first_of_its_key(entries, "children"@, 6);
    law_field_is_the_first_of_its_key(entries, "attributes"@, 7);
    assert(json_strings(attribute_pairs(e))->Array_0 =~= attribute_pairs(e).map_values(
        |s: Seq<char>| JsonView::Str(s),
    ));
}

proof fn lemma_reply_keys()
    ensures
        "targetId"@ != "type"@,
        "targetId"@ != "title"@,
        "targetId"@ != "url"@,
        "targetId"@ != "attached"@,
        "targetId"@ != "canAccessOpener"@,
        "targetId"@ != "browserContextId"@,
        "targetId"@ != "content"@,
        "targetId"@ != "width"@,
        "targetId"@ != "height"@,
        "targetId"@ != "model"@,
        "targetId"@ != "root"@,
        "targetId"@ != "backendNodeId"@,
        "targetId"@ != "id"@,
        "targetId"@ != "userTypedURL"@,
        "targetId"@ != "currentIndex"@,
        "targetId"@ != "entries"@,
        "type"@ != "title"@,
        "type"@ != "url"@,
        "type"@ != "attached"@,
        "type"@ != "canAccessOpener"@,
        "type"@ != "browserContextId"@,
        "type"@ != "content"@,
        "type"@ != "width"@,
        "type"@ != "height"@,
        "type"@ != "model"@,
        "type"@ != "root"@,
        "type"@ != "backendNodeId"@,
        "type"@ != "id"@,
        "type"@ != "userTypedURL"@,
        "type"@ != "currentIndex"@,
        "type"@ != "entries"@,
        "title"@ != "url"@,
        "title"@ != "attached"@,
        "title"@ != "canAccessOpener"@,
        "title"@ != "browserContextId"@,
        "title"@ != "content"@,
        "title"@ != "width"@,
        "title"@ != "height"@,
        "title"@ != "model"@,
        "title"@ != "root"@,
        "title"@ != "backendNodeId"@,
        "title"@ != "id"@,
        "title"@ != "userTypedURL"@,
        "title"@ != "currentIndex"@,
        "title"@ != "entries"@,
        "url"@ != "attached"@,
        "url"@ != "canAccessOpener"@,
        "url"@ != "browserContextId"@,
        "url"@ != "content"@,
        "url"@ != "width"@,
        "url"@ != "height"@,
        "url"@ != "model"@,
        "url"@ != "root"@,
        "url"@ != "backendNodeId"@,
        "url"@ != "id"@,
        "url"@ != "userTypedURL"@,
        "url"@ != "currentIndex"@,
        "url"@ != "entries"@,
        "attached"@ != "canAccessOpener"@,
        "attached"@ != "browserContextId"@,
        "attached"@ != "content"@,
        "attached"@ != "width"@,
        "attached"@ != "height"@,
        "attached"@ != "model"@,
        "attached"@ != "root"@,
        "attached"@ != "backendNodeId"@,
        "attached"@ != "id"@,
        "attached"@ != "userTypedURL"@,
        "attached"@ != "currentIndex"@,
        "attached"@ != "entries"@,
        "canAccessOpener"@ != "browserContextId"@,
        "canAccessOpener"@ != "content"@,
        "canAccessOpener"@ != "width"@,
        "canAccessOpener"@ != "height"@,
        "canAccessOpener"@ != "model"@,
        "canAccessOpener"@ != "root"@,
        "canAccessOpener"@ != "backendNodeId"@,
        "canAccessOpener"@ != "id"@,
        "canAccessOpener"@ != "userTypedURL"@,
        "canAccessOpener"@ != "currentIndex"@,
        "canAccessOpener"@ != "entries"@,
        "browserContextId"@ != "content"@,
        "browserContextId"@ != "width"@,
        "browserContextId"@ != "height"@,
        "browserContextId"@ != "model"@,
        "browserContextId"@ != "root"@,
        "browserContextId"@ != "backendNodeId"@,
        "browserContextId"@ != "id"@,
        "browserContextId"@ != "userTypedURL"@,
        "browserContextId"@ != "currentIndex"@,
        "browserContextId"@ != "entries"@,
        "content"@ != "width"@,
        "content"@ != "height"@,
        "content"@ != "model"@,
        "content"@ != "root"@,
        "content"@ != "backendNodeId"@,
        "content"@ != "id"@,
        "content"@ != "userTypedURL"@,
        "content"@ != "currentIndex"@,
        "content"@ != "entries"@,
        "width"@ != "height"@,
        "width"@ != "model"@,
        "width"@ != "root"@,
        "width"@ != "backendNodeId"@,
        "width"@ != "id"@,
        "width"@ != "userTypedURL"@,
        "width"@ != "currentIndex"@,
        "width"@ != "entries"@,
        "height"@ != "model"@,
        "height"@ != "root"@,
        "height"@ != "backendNodeId"@,
        "height"@ != "id"@,
        "height"@ != "userTypedURL"@,
        "height"@ != "currentIndex"@,
        "height"@ != "entries"@,
        "model"@ != "root"@,
        "model"@ != "backendNodeId"@,
        "model"@ != "id"@,
        "model"@ != "userTypedURL"@,
        "model"@ != "currentIndex"@,
        "model"@ != "entries"@,
        "root"@ != "backendNodeId"@,
        "root"@ != "id"@,
        "root"@ != "userTypedURL"@,
        "root"@ != "currentIndex"@,
        "root"@ != "entries"@,
        "backendNodeId"@ != "id"@,
        "backendNodeId"@ != "userTypedURL"@,
        "backendNodeId"@ != "currentIndex"@,
        "backendNodeId"@ != "entries"@,
        "id"@ != "userTypedURL"@,
        "id"@ != "currentIndex"@,
        "id"@ != "entries"@,
        "userTypedURL"@ != "currentIndex"@,
        "userTypedURL"@ != "entries"@,
        "currentIndex"@ != "entries"@,
{
    reveal_strlit("targetId");
    reveal_strlit("type");
    reveal_strlit("title");
    reveal_strlit("url");
    reveal_strlit("attached");
    reveal_strlit("canAccessOpener");
    reveal_strlit("browserContextId");
    reveal_strlit("content");
    reveal_strlit("width");
    reveal_strlit("height");
    reveal_strlit("model");
    reveal_strlit("root");
    reveal_strlit("backendNodeId");
    reveal_strlit("id");
    reveal_strlit("userTypedURL");
    reveal_strlit("currentIndex");
    reveal_strlit("entries");
    assert("targetId"@.len() == 8);
    assert("type"@.len() == 4);
    assert("title"@.len() == 5);
    assert("url"@.len() == 3);
    assert("attached"@.len() == 8);
    assert("canAccessOpener"@.len() == 15);
    assert("browserContextId"@.len() == 16);
    assert("content"@.len() == 7);
    assert("width"@.len() == 5);
    assert("height"@.len() == 6);
    assert("model"@.len() == 5);
    assert("root"@.len() == 4);
    assert("backendNodeId"@.len() == 13);
    assert("id"@.len() == 2);
    assert("userTypedURL"@.len() == 12);
    assert("currentIndex"@.len() == 12);
    assert("entries"@.len() == 7);
    assert("targetId"@[0] == 't');
    assert("attached"@[0] == 'a');
    assert("type"@[0] == 't');
    assert("root"@[0] == 'r');
    assert("title"@[0] == 't');
    assert("width"@[0] == 'w');
    assert("model"@[0] == 'm');
    assert("content"@[0] == 'c');
    assert("entries"@[0] == 'e');
    assert("userTypedURL"@[0] == 'u');
    assert("currentIndex"@[0] == 'c');
}

/// The box of a node is told by its corners, clockwise from the top left,
/// and its size, in pixels; a node without a box, and a number that no node
/// has, by nothing.
pub proof fn law_box_is_told_by_its_corners(page: PageView, id: int, layout: Layout)
    ensures
        ({
            let model = box_json(layout).field("model"@)->0;
            let left = pixels(layout.x as int);
            let top = pixels(layout.y as int);
            let right = pixels(layout.x + layout.width);
            let bottom = pixels(layout.y + layout.height);
            &&& box_json(layout).field("model"@) is Some
            &&& model.field("content"@) == Some(
                JsonView::Array(seq![left, top, right, top, right, bottom, left, bottom]),
            )
            &&& model.field("width"@) == Some(pixels(layout.width as int))
            &&& model.field("height"@) == Some(pixels(layout.height as int))
        }),
        ({
            let nodes = preorder(page.root);
            let there = 1 <= id <= nodes.len() && nodes[id - 1].layout is Some;
            &&& there ==> box_reply(page, id) == box_json(nodes[id - 1].layout->0)
            &&& !there ==> box_reply(page, id) == JsonView::Object(Seq::empty())
        }),
{
    lemma_reply_keys();
    lemma_only_field("model"@, box_json(layout)->Object_0[0].1);
    let entries = box_json(layout)->Object_0[0].1->Object_0;
    law_field_is_the_first_of_its_key(entries, "content"@, 0);
    law_field_is_the_first_of_its_key(entries, "width"@, 1);
    law_field_is_the_first_of_its_key(entries, "height"@, 2);
}

/// A length is told in pixels, with one decimal.
pub proof fn law_pixels_are_tenths_of_tenths(tenths: int)
    requires
        0 <= tenths,
    ensures
        pixels(tenths) == JsonView::Real(
            decimal((tenths / 10) as nat) + "."@ + seq![('0' as u32 + tenths % 10) as char],
        ),
{
    assert(decimal((tenths % 10) as nat) == seq![crate::text::digit((tenths % 10) as nat)]);
}

/// What a page is asked is answered from the page: its document with numbers
/// from 1 on, the attributes, the box and the HTML of the node that was asked
/// for, its source, and its title and address, which is `about:blank` where
/// it has none.
pub proof fn law_answers_come_from_the_page(page: PageView, params: JsonView)
    ensures
        ({
            let id = node_param(params);
            let nodes = preorder(page.root);
            let there = 1 <= id <= nodes.len();
            let reply = |method: CdpMethod| reply_of(page, method, params);
            let title = JsonView::Str(
                match page.title {
                    Some(title) => title,
                    None => Seq::empty(),
                },
            );
            let url = JsonView::Str(
                match page.url {
                    Some(url) => url,
                    None => "about:blank"@,
                },
            );
            &&& reply(CdpMethod::GetDocument).field("root"@) == Some(node_json(page.root, 1))
            &&& there ==> reply(CdpMethod::GetAttributes).field("attributes"@) == Some(
                json_strings(attribute_pairs(nodes[id - 1])),
            )
            &&& reply(CdpMethod::GetBoxModel) == box_reply(page, id)
            &&& there ==> reply(CdpMethod::GetOuterHtml).field("outerHTML"@) == Some(
                JsonView::Str(html_of(nodes[id - 1])),
            )
            &&& reply(CdpMethod::CaptureSnapshot).field("data"@) == Some(
                JsonView::Str(
                    match page.source {
                        Some(source) => source,
                        None => Seq::empty(),
                    },
                ),
            )
            &&& reply(CdpMethod::GetTargetInfo).field("targetInfo"@) == Some(target_of_page(page))
            &&& reply(CdpMethod::GetTargets).field("targetInfos"@) == Some(
                JsonView::Array(seq![target_of_page(page)]),
            )
            &&& target_of_page(page).field("title"@) == Some(title)
            &&& target_of_page(page).field("url"@) == Some(url)
            &&& target_of_page(page).field("targetId"@) == Some(
                JsonView::Str("kite-lite-target"@),
            )
            &&& target_of_page(page).field("type"@) == Some(JsonView::Str("page"@))
            &&& reply(CdpMethod::AttachToTarget).field("sessionId"@) == Some(
                JsonView::Str("kite-lite-session"@),
            )
            &&& reply(CdpMethod::AttachToBrowserTarget).field("sessionId"@) == Some(
                JsonView::Str("kite-lite-session"@),
            )
            &&& reply(CdpMethod::CloseTarget).field("success"@) == Some(JsonView::Bool(true))
            &&& reply(CdpMethod::GetNavigationHistory).field("entries"@) matches Some(
                JsonView::Array(entries),
            ) && entries.len() == 1 && entries[0].field("url"@) == Some(url)
                && entries[0].field("title"@) == Some(title)
            &&& reply(CdpMethod::SetAutoAttach) == JsonView::Object(Seq::empty())
            &&& reply(CdpMethod::Other) == JsonView::Object(Seq::empty())
        }),
{
    lemma_reply_keys();
    let id = node_param(params);
    law_field_is_the_first_of_its_key(
        reply_of(page, CdpMethod::GetDocument, params)->Object_0,
        "root"@,
        0,
    );
    lemma_only_field("attributes"@, attributes_json(page, id));
    lemma_only_field("outerHTML"@, json_str(outer_html(page, id)));
    lemma_only_field("data"@, json_str(text_or_empty(page.source)));
    lemma_only_field("targetInfo"@, target_of_page(page));
    lemma_only_field("targetInfos"@, JsonView::Array(seq![target_of_page(page)]));
    lemma_only_field("sessionId"@, json_str("kite-lite-session"@));
    lemma_only_field("success"@, JsonView::Bool(true));
    let target = target_of_page(page)->Object_0;
    law_field_is_the_first_of_its_key(target, "targetId"@, 0);
    law_field_is_the_first_of_its_key(target, "type"@, 1);
    law_field_is_the_first_of_its_key(target, "title"@, 2);
    law_field_is_the_first_of_its_key(target, "url"@, 3);
    let history = history_json(page)->Object_0;
    law_field_is_the_first_of_its_key(history, "entries"@, 1);
    let entry = history[1].1->Array_0[0]->Object_0;
    law_field_is_the_first_of_its_key(entry, "url"@, 1);
    law_field_is_the_first_of_its_key(entry, "title"@, 3);
}

/// A request gives the number of a node as `nodeId`; a number that 32 bits
/// hold is taken as it is, and none is 0.
pub proof fn law_node_is_given_by_number(params: JsonView, n: u64)
    requires
        n < 0x1_0000_0000,
    ensures
        params.field("nodeId"@) == Some(JsonView::Unsigned(n)) ==> node_param(params) == n,
        params.field("nodeId"@) is None ==> node_param(params) == 0,
{
}

/// What a request leads to: `Page.navigate` to the address that it gives,
/// `Page.reload` to the page's own, and neither anywhere without an address;
/// `Runtime.evaluate` to the script that it gives; and every other but a
/// click to an answer.
pub proof fn law_steps_go_by_the_request(
    session: SessionView,
    method: CdpMethod,
    params: JsonView,
    text: Seq<char>,
)
    requires
        text.len() > 0,
    ensures
        method == CdpMethod::Navigate && params.field("url"@) == Some(JsonView::Str(text))
            ==> step_of(session, method, params) == StepView::Navigate(text),
        method == CdpMethod::Navigate && params.field("url"@) is None ==> step_of(
            session,
            method,
            params,
        ) is Reply,
        method == CdpMethod::Reload && session.page.url == Some(text) ==> step_of(
            session,
            method,
            params,
        ) == StepView::Navigate(text),
        method == CdpMethod::Reload && session.page.url is None ==> step_of(
            session,
            method,
            params,
        ) is Reply,
        method == CdpMethod::Evaluate && params.field("expression"@) == Some(JsonView::Str(text))
            ==> step_of(session, method, params) == StepView::Evaluate(text),
        method != CdpMethod::Navigate && method != CdpMethod::Reload && method
            != CdpMethod::Evaluate && method != CdpMethod::DispatchMouseEvent ==> step_of(
            session,
            method,
            params,
        ) == StepView::Reply(reply_of(session.page, method, params)),
{
}

/// A mouse that is pressed is a click at its height: it leads where the click
/// leads, gives the focus to the field that it hits, and leaves the session
/// as it is otherwise. Any other mouse event does nothing.
pub proof fn law_pressing_the_mouse_clicks(session: SessionView, params: JsonView)
    ensures
        ({
            let method = CdpMethod::DispatchMouseEvent;
            let step = step_of(session, method, params);
            let after = session_after(session, method, params);
            let action = click_at(session.page, params.tenths_field("y"@));
            let pressed = params.field("type"@) == Some(JsonView::Str("mousePressed"@));
            let nothing = StepView::Reply(JsonView::Object(Seq::empty()));
            &&& pressed ==> match action {
                ActionView::Nothing => step == nothing && after == session,
                ActionView::Focus(id) => step == nothing && after == (SessionView {
                    focused: Some(id),
                    ..session
                }),
                ActionView::Navigate(url) => after == session && (url.len() > 0 ==> step
                    == StepView::Navigate(url)),
                ActionView::Submit { action_url, query } => after == session && (action_url.len()
                    > 0 ==> step == StepView::Navigate(submission_target(action_url, query))),
            }
            &&& !pressed ==> step == nothing && after == session
        }),
{
}

/// A key event goes to the focused field, with the type, the text and the
/// key that it gives.
pub proof fn law_keys_go_to_the_focused_field(
    session: SessionView,
    params: JsonView,
    event_type: Seq<char>,
    text: Seq<char>,
)
    ensures
        params.field("type"@) == Some(JsonView::Str(event_type)) && params.field("text"@) == Some(
            JsonView::Str(text),
        ) && params.field("key"@) is None ==> session_after(
            session,
            CdpMethod::DispatchKeyEvent,
            params,
        ) == keyed(session, event_type, Some(text), None),
        params.field("type"@) == Some(JsonView::Str(event_type)) && params.field("key"@) == Some(
            JsonView::Str(text),
        ) && params.field("text"@) is None ==> session_after(
            session,
            CdpMethod::DispatchKeyEvent,
            params,
        ) == keyed(session, event_type, None, Some(text)),
        step_of(session, CdpMethod::DispatchKeyEvent, params) == StepView::Reply(
            JsonView::Object(Seq::empty()),
        ),
{
}

proof fn lemma_message_keys()
    ensures
        "id"@ != "result"@,
        "id"@ != "error"@,
        "id"@ != "sessionId"@,
        "id"@ != "method"@,
        "id"@ != "params"@,
        "id"@ != "frameId"@,
        "id"@ != "message"@,
        "id"@ != "loaderId"@,
        "result"@ != "error"@,
        "result"@ != "sessionId"@,
        "result"@ != "method"@,
        "result"@ != "params"@,
        "result"@ != "frameId"@,
        "result"@ != "message"@,
        "result"@ != "loaderId"@,
        "error"@ != "sessionId"@,
        "error"@ != "method"@,
        "error"@ != "params"@,
        "error"@ != "frameId"@,
        "error"@ != "message"@,
        "error"@ != "loaderId"@,
        "sessionId"@ != "method"@,
        "sessionId"@ != "params"@,
        "sessionId"@ != "frameId"@,
        "sessionId"@ != "message"@,
        "sessionId"@ != "loaderId"@,
        "method"@ != "params"@,
        "method"@ != "frameId"@,
        "method"@ != "message"@,
        "method"@ != "loaderId"@,
        "params"@ != "frameId"@,
        "params"@ != "message"@,
        "params"@ != "loaderId"@,
        "frameId"@ != "message"@,
        "frameId"@ != "loaderId"@,
        "message"@ != "loaderId"@,
{
    reveal_strlit("id");
    reveal_strlit("result");
    reveal_strlit("error");
    reveal_strlit("sessionId");
    reveal_strlit("method");
    reveal_strlit("params");
    reveal_strlit("frameId");
    reveal_strlit("message");
    reveal_strlit("loaderId");
    assert("id"@.len() == 2);
    assert("result"@.len() == 6);
    assert("error"@.len() == 5);
    assert("sessionId"@.len() == 9);
    assert("method"@.len() == 6);
    assert("params"@.len() == 6);
    assert("frameId"@.len() == 7);
    assert("message"@.len() == 7);
    assert("loaderId"@.len() == 8);
    assert("result"@[0] == 'r');
    assert("method"@[0] == 'm');
    assert("params"@[0] == 'p');
    assert("frameId"@[0] == 'f');
    assert("message"@[0] == 'm');
}

/// A response has the id of its request, and either the result or an error.
pub proof fn law_response_has_the_id_of_its_request(
    id: JsonView,
    result: JsonView,
    session_id: Option<Seq<char>>,
)
    ensures
        ({
            let answered = response_json(id, Some(result), session_id);
            let failed = response_json(id, None, session_id);
            &&& answered.field("id"@) == Some(id) && failed.field("id"@) == Some(id)
            &&& answered.field("result"@) == Some(result) && failed.field("result"@) is None
            &&& answered.field("error"@) is None && failed.field("error"@) is Some
            &&& answered.text_field("sessionId"@) == session_id
            &&& failed.text_field("sessionId"@) == session_id
        }),
{
    lemma_message_keys();
    let answered = response_json(id, Some(result), session_id)->Object_0;
    let failed = response_json(id, None, session_id)->Object_0;
    let n = answered.len() as int;
    law_field_is_the_first_of_its_key(answered, "id"@, 0);
    law_field_is_the_first_of_its_key(failed, "id"@, 0);
    law_field_is_the_first_of_its_key(answered, "result"@, 1);
    law_field_is_the_first_of_its_key(failed, "error"@, 1);
    law_field_is_the_first_of_its_key(answered, "error"@, n);
    law_field_is_the_first_of_its_key(failed, "result"@, n);
    law_field_is_the_first_of_its_key(answered, "sessionId"@, 2);
    law_field_is_the_first_of_its_key(failed, "sessionId"@, 2);
}

/// A page that was loaded is followed by three events, in this order: that
/// loading began, that the page is there, and that loading ended.
pub proof fn law_events_come_in_order(result: JsonView, session_id: Option<Seq<char>>)
    requires
        result.field("frameId"@) is Some,
    ensures
        ({
            let events = load_events(result, session_id);
            &&& events.len() == 3
            &&& events[0].text_field("method"@) == Some("Page.frameStartedLoading"@)
            &&& events[1].text_field("method"@) == Some("Page.loadEventFired"@)
            &&& events[2].text_field("method"@) == Some("Page.frameStoppedLoading"@)
        }),
{
    lemma_message_keys();
    let events = load_events(result, session_id);
    law_field_is_the_first_of_its_key(events[0]->Object_0, "method"@, 0);
    law_field_is_the_first_of_its_key(events[1]->Object_0, "method"@, 0);
    law_field_is_the_first_of_its_key(events[2]->Object_0, "method"@, 0);
}

/// A client is told that it is attached when it asks for that, or asks to be
/// attached by itself, and at no other time; it is told the session and the
/// page.
pub proof fn law_client_is_told_that_it_is_attached(
    method: CdpMethod,
    params: JsonView,
    page: PageView,
)
    ensures
        ({
            let told = attachment(method, params, Some(page));
            let asked = method == CdpMethod::AttachToTarget || (method == CdpMethod::SetAutoAttach
                && params.field("autoAttach"@) == Some(JsonView::Bool(true)));
            &&& !asked ==> told.len() == 0
            &&& asked ==> told.len() == 1 && told[0].text_field("method"@) == Some(
                "Target.attachedToTarget"@,
            ) && told[0].field("params"@) is Some && told[0].field("params"@)->0.text_field(
                "sessionId"@,
            ) == Some("kite-lite-session"@)
            &&& attachment(method, params, None).len() == 0
        }),
{
    lemma_message_keys();
    let event = attached_json(page)->Object_0;
    law_field_is_the_first_of_its_key(event, "method"@, 0);
    law_field_is_the_first_of_its_key(event, "params"@, 1);
    law_field_is_the_first_of_its_key(event[1].1->Object_0, "sessionId"@, 0);
}

proof fn lemma_more_keys()
    ensures
        "protocolVersion"@ != "product"@,
        "protocolVersion"@ != "revision"@,
        "protocolVersion"@ != "userAgent"@,
        "protocolVersion"@ != "jsVersion"@,
        "protocolVersion"@ != "frame"@,
        "protocolVersion"@ != "resources"@,
        "protocolVersion"@ != "id"@,
        "protocolVersion"@ != "loaderId"@,
        "protocolVersion"@ != "url"@,
        "protocolVersion"@ != "mimeType"@,
        "protocolVersion"@ != "securityOrigin"@,
        "protocolVersion"@ != "sessionId"@,
        "protocolVersion"@ != "targetInfo"@,
        "protocolVersion"@ != "waitingForDebugger"@,
        "protocolVersion"@ != "frameId"@,
        "product"@ != "revision"@,
        "product"@ != "userAgent"@,
        "product"@ != "jsVersion"@,
        "product"@ != "frame"@,
        "product"@ != "resources"@,
        "product"@ != "id"@,
        "product"@ != "loaderId"@,
        "product"@ != "url"@,
        "product"@ != "mimeType"@,
        "product"@ != "securityOrigin"@,
        "product"@ != "sessionId"@,
        "product"@ != "targetInfo"@,
        "product"@ != "waitingForDebugger"@,
        "product"@ != "frameId"@,
        "revision"@ != "userAgent"@,
        "revision"@ != "jsVersion"@,
        "revision"@ != "frame"@,
        "revision"@ != "resources"@,
        "revision"@ != "id"@,
        "revision"@ != "loaderId"@,
        "revision"@ != "url"@,
        "revision"@ != "mimeType"@,
        "revision"@ != "securityOrigin"@,
        "revision"@ != "sessionId"@,
        "revision"@ != "targetInfo"@,
        "revision"@ != "waitingForDebugger"@,
        "revision"@ != "frameId"@,
        "userAgent"@ != "jsVersion"@,
        "userAgent"@ != "frame"@,
        "userAgent"@ != "resources"@,
        "userAgent"@ != "id"@,
        "userAgent"@ != "loaderId"@,
        "userAgent"@ != "url"@,
        "userAgent"@ != "mimeType"@,
        "userAgent"@ != "securityOrigin"@,
        "userAgent"@ != "sessionId"@,
        "userAgent"@ != "targetInfo"@,
        "userAgent"@ != "waitingForDebugger"@,
        "userAgent"@ != "frameId"@,
        "jsVersion"@ != "frame"@,
        "jsVersion"@ != "resources"@,
        "jsVersion"@ != "id"@,
        "jsVersion"@ != "loaderId"@,
        "jsVersion"@ != "url"@,
        "jsVersion"@ != "mimeType"@,
        "jsVersion"@ != "securityOrigin"@,
        "jsVersion"@ != "sessionId"@,
        "jsVersion"@ != "targetInfo"@,
        "jsVersion"@ != "waitingForDebugger"@,
        "jsVersion"@ != "frameId"@,
        "frame"@ != "resources"@,
        "frame"@ != "id"@,
        "frame"@ != "loaderId"@,
        "frame"@ != "url"@,
        "frame"@ != "mimeType"@,
        "frame"@ != "securityOrigin"@,
        "frame"@ != "sessionId"@,
        "frame"@ != "targetInfo"@,
        "frame"@ != "waitingForDebugger"@,
        "frame"@ != "frameId"@,
        "resources"@ != "id"@,
        "resources"@ != "loaderId"@,
        "resources"@ != "url"@,
        "resources"@ != "mimeType"@,
        "resources"@ != "securityOrigin"@,
        "resources"@ != "sessionId"@,
        "resources"@ != "targetInfo"@,
        "resources"@ != "waitingForDebugger"@,
        "resources"@ != "frameId"@,
        "id"@ != "loaderId"@,
        "id"@ != "url"@,
        "id"@ != "mimeType"@,
        "id"@ != "securityOrigin"@,
        "id"@ != "sessionId"@,
        "id"@ != "targetInfo"@,
        "id"@ != "waitingForDebugger"@,
        "id"@ != "frameId"@,
        "loaderId"@ != "url"@,
        "loaderId"@ != "mimeType"@,
        "loaderId"@ != "securityOrigin"@,
        "loaderId"@ != "sessionId"@,
        "loaderId"@ != "targetInfo"@,
        "loaderId"@ != "waitingForDebugger"@,
        "loaderId"@ != "frameId"@,
        "url"@ != "mimeType"@,
        "url"@ != "securityOrigin"@,
        "url"@ != "sessionId"@,
        "url"@ != "targetInfo"@,
        "url"@ != "waitingForDebugger"@,
        "url"@ != "frameId"@,
        "mimeType"@ != "securityOrigin"@,
        "mimeType"@ != "sessionId"@,
        "mimeType"@ != "targetInfo"@,
        "mimeType"@ != "waitingForDebugger"@,
        "mimeType"@ != "frameId"@,
        "securityOrigin"@ != "sessionId"@,
        "securityOrigin"@ != "targetInfo"@,
        "securityOrigin"@ != "waitingForDebugger"@,
        "securityOrigin"@ != "frameId"@,
        "sessionId"@ != "targetInfo"@,
        "sessionId"@ != "waitingForDebugger"@,
        "sessionId"@ != "frameId"@,
        "targetInfo"@ != "waitingForDebugger"@,
        "targetInfo"@ != "frameId"@,
        "waitingForDebugger"@ != "frameId"@,
{
    reveal_strlit("protocolVersion");
    reveal_strlit("product");
    reveal_strlit("revision");
    reveal_strlit("userAgent");
    reveal_strlit("jsVersion");
    reveal_strlit("frame");
    reveal_strlit("resources");
    reveal_strlit("id");
    reveal_strlit("loaderId");
    reveal_strlit("url");
    reveal_strlit("mimeType");
    reveal_strlit("securityOrigin");
    reveal_strlit("sessionId");
    reveal_strlit("targetInfo");
    reveal_strlit("waitingForDebugger");
    reveal_strlit("frameId");
    assert("protocolVersion"@.len() == 15);
    assert("product"@.len() == 7);
    assert("revision"@.len() == 8);
    assert("userAgent"@.len() == 9);
    assert("jsVersion"@.len() == 9);
    assert("frame"@.len() == 5);
    assert("resources"@.len() == 9);
    assert("id"@.len() == 2);
    assert("loaderId"@.len() == 8);
    assert("url"@.len() == 3);
    assert("mimeType"@.len() == 8);
    assert("securityOrigin"@.len() == 14);
    assert("sessionId"@.len() == 9);
    assert("targetInfo"@.len() == 10);
    assert("waitingForDebugger"@.len() == 18);
    assert("frameId"@.len() == 7);
    assert("product"@[0] == 'p');
    assert("frameId"@[0] == 'f');
    assert("revision"@[0] == 'r');
    assert("loaderId"@[0] == 'l');
    assert("mimeType"@[0] == 'm');
    assert("userAgent"@[0] == 'u');
    assert("jsVersion"@[0] == 'j');
    assert("resources"@[0] == 'r');
    assert("sessionId"@[0] == 's');
}

/// A browser that is asked for its version tells it; the tree of resources is
/// one frame at the page's address, without any resources.
pub proof fn law_version_and_frame_are_told(page: PageView, params: JsonView)
    ensures
        ({
            let version = reply_of(page, CdpMethod::GetVersion, params);
            let tree = reply_of(page, CdpMethod::GetResourceTree, params).field("frameTree"@);
            let frame = tree->0.field("frame"@);
            &&& version.field("protocolVersion"@) == Some(JsonView::Str("1.3"@))
            &&& version.field("product"@) == Some(JsonView::Str("KiteLite/0.1.0"@))
            &&& version.field("userAgent"@) == Some(JsonView::Str("kite-lite"@))
            &&& version.field("jsVersion"@) == Some(JsonView::Str("Boa"@))
            &&& tree is Some && frame is Some
            &&& tree->0.field("resources"@) == Some(JsonView::Array(Seq::empty()))
            &&& frame->0.field("id"@) == Some(JsonView::Str("kite-lite-frame"@))
            &&& frame->0.field("mimeType"@) == Some(JsonView::Str("text/html"@))
            &&& frame->0.field("url"@) == Some(
                JsonView::Str(
                    match page.url {
                        Some(url) => url,
                        None => "about:blank"@,
                    },
                ),
            )
        }),
{
    lemma_more_keys();
    let version = version_json()->Object_0;
    law_field_is_the_first_of_its_key(version, "protocolVersion"@, 0);
    law_field_is_the_first_of_its_key(version, "product"@, 1);
    law_field_is_the_first_of_its_key(version, "userAgent"@, 3);
    law_field_is_the_first_of_its_key(version, "jsVersion"@, 4);
    let whole = resources_json(page)->Object_0;
    law_field_is_the_first_of_its_key(whole, "frameTree"@, 0);
    let tree = whole[0].1->Object_0;
    law_field_is_the_first_of_its_key(tree, "frame"@, 0);
    law_field_is_the_first_of_its_key(tree, "resources"@, 1);
    let frame = tree[0].1->Object_0;
    law_field_is_the_first_of_its_key(frame, "id"@, 0);
    law_field_is_the_first_of_its_key(frame, "url"@, 2);
    law_field_is_the_first_of_its_key(frame, "mimeType"@, 3);
}

/// The number of a node is taken by its lower 32 bits.
pub proof fn law_node_numbers_have_32_bits(params: JsonView, n: u64)
    requires
        params.field("nodeId"@) == Some(JsonView::Unsigned(n)),
    ensures
        0 <= node_param(params) < 4294967296,
        (n - node_param(params)) % 4294967296 == 0,
{
}

/// A navigation without an address is answered with an error, and so is one
/// that failed, with the reason; one that succeeded with the frame.
pub proof fn law_navigation_is_answered(
    session: SessionView,
    params: JsonView,
    message: Seq<char>,
)
    ensures
        ({
            let nowhere = StepView::Reply(error_json("no URL available for navigation"@));
            &&& params.field("url"@) is None || params.field("url"@) == Some(
                JsonView::Str(Seq::empty()),
            ) ==> step_of(session, CdpMethod::Navigate, params) == nowhere
            &&& session.page.url is None || session.page.url == Some(Seq::<char>::empty())
                ==> step_of(session, CdpMethod::Reload, params) == nowhere
            &&& params.field("expression"@) is None ==> step_of(
                session,
                CdpMethod::Evaluate,
                params,
            ) == StepView::Evaluate(Seq::empty())
        }),
        error_json(message).field("errorText"@) == Some(JsonView::Str(message)),
        navigated_json().field("frameId"@) == Some(JsonView::Str("kite-lite-frame"@)),
        navigated_json().field("loaderId"@) == Some(JsonView::Str("kite-lite-loader"@)),
{
    lemma_more_keys();
    lemma_only_field("errorText"@, json_str(message));
    law_field_is_the_first_of_its_key(navigated_json()->Object_0, "frameId"@, 0);
    law_field_is_the_first_of_its_key(navigated_json()->Object_0, "loaderId"@, 1);
}

/// A request is read from its message: its id and its parameters, null where
/// there are none, the name of its method, empty where there is none, and the
/// session that it was sent to.
pub proof fn law_request_is_read_from_its_message(message: JsonView, request: CdpRequest)
    requires
        is_request(message, request),
    ensures
        message.field("id"@) matches Some(id) ==> request.id.deep_view() == id,
        message.field("id"@) is None ==> request.id.deep_view() == JsonView::Null,
        message.field("params"@) matches Some(params) ==> request.params.deep_view() == params,
        message.field("params"@) is None ==> request.params.deep_view() == JsonView::Null,
        message.field("method"@) matches Some(JsonView::Str(name)) ==> request.method@ == name,
        message.field("method"@) is None ==> request.method@.len() == 0,
        message.field("sessionId"@) matches Some(JsonView::Str(id)) ==> request.session_id.deep_view()
            == Some(id),
        message.field("sessionId"@) is None ==> request.session_id is None,
{
}

/// The events of a page that was loaded are those of the one frame, and who
/// is attached is told the page.
pub proof fn law_events_tell_the_frame(page: PageView, result: JsonView, session_id: Option<Seq<char>>)
    requires
        result.field("frameId"@) is Some,
    ensures
        ({
            let events = load_events(result, session_id);
            let frame = JsonView::Str("kite-lite-frame"@);
            &&& events[0].field("params"@) is Some
            &&& events[0].field("params"@)->0.field("frameId"@) == Some(frame)
            &&& events[2].field("params"@) is Some
            &&& events[2].field("params"@)->0.field("frameId"@) == Some(frame)
        }),
        ({
            let told = attached_json(page).field("params"@);
            &&& told is Some
            &&& told->0.field("targetInfo"@) == Some(target_of_page(page))
            &&& told->0.field("waitingForDebugger"@) == Some(JsonView::Bool(false))
        }),
{
    lemma_more_keys();
    lemma_message_keys();
    let events = load_events(result, session_id);
    law_field_is_the_first_of_its_key(events[0]->Object_0, "params"@, 1);
    law_field_is_the_first_of_its_key(events[2]->Object_0, "params"@, 1);
    lemma_only_field("frameId"@, json_str("kite-lite-frame"@));
    let told = attached_json(page)->Object_0;
    law_field_is_the_first_of_its_key(told, "params"@, 1);
    law_field_is_the_first_of_its_key(told[1].1->Object_0, "targetInfo"@, 1);
    law_field_is_the_first_of_its_key(told[1].1->Object_0, "waitingForDebugger"@, 2);
}

} // verus!
