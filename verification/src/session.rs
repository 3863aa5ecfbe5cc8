//! A browsing session: one page, the field that has the focus, and what
//! clicking and typing do. Nothing here runs a script of the page.

use crate::cookies::{cookies_in, extract_cookies};
use crate::dom::fits_parser;
use crate::forms::{encode_query, query_of, submission_target, submission_url};
use crate::html::{page_of, parse_html};
use crate::json::JsonView;
use crate::layout::{
    compute_layout, extent, laid_out, law_boxes_come_in_order, law_every_element_is_boxed,
};
use crate::links::{resolve_links, resolved_page};
use crate::model::{Element, ElementView, Page, PageView};
use crate::seqs::{
    first_where, gather, lemma_first_where, lemma_first_where_is, lemma_gather_lists,
    lemma_gather_push, lemma_gather_same, lists,
};
use crate::text::{or_empty, same_text, text_or_empty};
use crate::tree::{
    encloses, enclosing_form, find_enclosing_form, find_node, form_from, is_form,
    law_enclosing_form_is_the_closest, law_later_value_counts, law_numbers_of_a_subtree,
    law_own_value_changes_nothing, law_with_value_changes_one_value, node_at, nodes_of, preorder,
    set_value, with_value,
};
use crate::webmcp::{
    action_of, action_url, argument_pick, field_name_of, submission_of, tool_test,
};
use vstd::prelude::*;

verus! {

/// The width that a page is laid out at when it arrives, in tenths of a
/// pixel.
pub const DEFAULT_VIEWPORT_WIDTH: u64 = 10240;

/// A page, and the number of the `<input>` or `<textarea>` that keys go to.
#[derive(Debug)]
pub struct CdpSession {
    pub page: Page,
    pub focused_node_id: Option<usize>,
}

/// What a session is, as a mathematical value.
#[verifier::ext_equal]
pub struct SessionView {
    pub page: PageView,
    pub focused: Option<int>,
}

pub open spec fn number(id: Option<usize>) -> Option<int> {
    match id {
        Some(id) => Some(id as int),
        None => None,
    }
}

impl DeepView for CdpSession {
    type V = SessionView;

    open spec fn deep_view(&self) -> SessionView {
        SessionView { page: self.page.deep_view(), focused: number(self.focused_node_id) }
    }
}

/// A page with the boxes that it has in the default viewport; as it is,
/// where it is too high for boxes.
pub open spec fn with_default_layout(page: PageView) -> PageView {
    if extent(page.root, DEFAULT_VIEWPORT_WIDTH as int) <= u64::MAX {
        PageView { root: laid_out(page.root, 0, DEFAULT_VIEWPORT_WIDTH as int), ..page }
    } else {
        page
    }
}

/// The page that a response holds: what its text says, at the address that
/// it finally came from, with the cookies that came with it.
pub open spec fn page_of_response(
    parsed: PageView,
    final_url: Seq<char>,
    set_cookies: Seq<Seq<char>>,
) -> PageView {
    with_default_layout(
        resolved_page(
            final_url,
            PageView {
                url: Some(final_url),
                cookies: cookies_in(set_cookies),
                ..parsed
            },
        ),
    )
}

/// Lays out a page in the default viewport.
pub fn lay_out_by_default(page: &mut Page)
    ensures
        final(page).deep_view() == with_default_layout(old(page).deep_view()),
{
    compute_layout(page, DEFAULT_VIEWPORT_WIDTH);
}

/// The page that a parsed document becomes when it came from an address,
/// with the given `Set-Cookie` headers.
pub fn finish_page(parsed: Page, final_url: &str, set_cookies: &Vec<String>) -> (page: Page)
    ensures
        page.deep_view() == page_of_response(
            parsed.deep_view(),
            final_url@,
            set_cookies.deep_view(),
        ),
{
    let mut page = parsed;
    page.url = Some(final_url.to_owned());
    page.cookies = extract_cookies(set_cookies);
    resolve_links(&mut page, final_url);
    lay_out_by_default(&mut page);
    page
}

/// The page that a response holds, from the response's text, the address
/// that it finally came from and its `Set-Cookie` headers.
pub fn page_from_response(html: &str, final_url: &str, set_cookies: &Vec<String>) -> (page: Page)
    requires
        fits_parser(html@),
    ensures
        page.deep_view() == page_of_response(
            page_of(crate::dom::html_document(html@), html@),
            final_url@,
            set_cookies.deep_view(),
        ),
{
    finish_page(parse_html(html), final_url, set_cookies)
}

impl CdpSession {
    /// A session on a page, with the focus nowhere.
    pub fn new(page: Page) -> (session: CdpSession)
        ensures
            session.deep_view() == (SessionView { page: page.deep_view(), focused: None }),
    {
        CdpSession { page, focused_node_id: None }
    }

    /// Puts another page in place of the session's. The focus is lost: a
    /// number means an element of one page only.
    pub fn apply_navigation(&mut self, page: Page)
        ensures
            final(self).deep_view() == (SessionView { page: page.deep_view(), focused: None }),
    {
        self.page = page;
        self.focused_node_id = None;
    }
}

/// Whether an element without children is at a height: whether its box, of
/// at least one pixel, spans it. What is never drawn is nowhere.
pub open spec fn is_hit(e: ElementView, y: int) -> bool {
    &&& e.children.len() == 0
    &&& e.tag != "head"@ && e.tag != "script"@ && e.tag != "style"@
    &&& match e.layout {
        Some(layout) => layout.y <= y < layout.y + (if layout.height < 10 {
            10
        } else {
            layout.height as int
        }),
        None => false,
    }
}

pub open spec fn hit_test_at(y: int) -> spec_fn(ElementView) -> bool {
    |e: ElementView| is_hit(e, y)
}

/// The number of the first element at a height.
pub open spec fn hit(root: ElementView, y: int) -> Option<int> {
    let at = first_where(preorder(root), hit_test_at(y));
    if at < preorder(root).len() {
        Some(at + 1)
    } else {
        None
    }
}

/// The number of the first element without children whose box spans a
/// height, given in tenths of a pixel.
pub fn hit_test(root: &Element, y: i128) -> (id: Option<usize>)
    ensures
        number(id) == hit(root.deep_view(), y as int),
{
    let nodes = nodes_of(root);
    let ghost test = hit_test_at(y as int);
    for i in 0..nodes.len()
        invariant
            nodes.deep_view() == preorder(root.deep_view()),
            test == hit_test_at(y as int),
            forall|k: int| 0 <= k < i ==> !test(#[trigger] nodes.deep_view()[k]),
    {
        let e = nodes[i];
        assert(nodes.deep_view()[i as int] == e.deep_view());
        if e.children.len() == 0 && !same_text(e.tag.as_str(), "head") && !same_text(
            e.tag.as_str(),
            "script",
        ) && !same_text(e.tag.as_str(), "style") {
            if let Some(layout) = e.layout {
                let top: i128 = layout.y as i128;
                let height: i128 = if layout.height < 10 { 10 } else { layout.height as i128 };
                if y >= top && y < top + height {
                    proof {
                        lemma_first_where_is(nodes.deep_view(), test, i as int);
                    }
                    return Some(i + 1);
                }
            }
        }
    }
    proof {
        lemma_first_where_is(nodes.deep_view(), test, nodes@.len() as int);
    }
    None
}

/// What a click does.
#[derive(Debug)]
pub enum ClickAction {
    Nothing,
    Navigate(String),
    Focus(usize),
    Submit { action_url: String, query: String },
}

/// What a click does, as a mathematical value.
#[verifier::ext_equal]
pub enum ActionView {
    Nothing,
    Navigate(Seq<char>),
    Focus(int),
    Submit { action_url: Seq<char>, query: Seq<char> },
}

impl DeepView for ClickAction {
    type V = ActionView;

    open spec fn deep_view(&self) -> ActionView {
        match self {
            ClickAction::Nothing => ActionView::Nothing,
            ClickAction::Navigate(url) => ActionView::Navigate(url@),
            ClickAction::Focus(id) => ActionView::Focus(*id as int),
            ClickAction::Submit { action_url, query } => ActionView::Submit {
                action_url: action_url@,
                query: query@,
            },
        }
    }
}

pub open spec fn value_pick() -> spec_fn(ElementView) -> Seq<(Seq<char>, Seq<char>)> {
    |e: ElementView|
        match e.name {
            Some(name) if e.tag == "input"@ || e.tag == "textarea"@ => seq![
                (name, text_or_empty(e.value)),
            ],
            _ => Seq::empty(),
        }
}

/// The names of a form's fields with their current values.
pub open spec fn form_fields(form: ElementView) -> Seq<(Seq<char>, Seq<char>)> {
    gather(preorder(form), value_pick())
}

/// What submitting the form around an element does.
pub open spec fn submit_from(page: PageView, id: int) -> ActionView {
    match enclosing_form(page.root, id) {
        Some(a) => {
            let form = preorder(page.root)[a - 1];
            ActionView::Submit {
                action_url: action_of(form, page),
                query: query_of(form_fields(form)),
            }
        },
        None => ActionView::Nothing,
    }
}

/// What clicking an element does.
pub open spec fn action_for(page: PageView, id: int) -> ActionView {
    match node_at(page.root, id) {
        None => ActionView::Nothing,
        Some(e) => if e.tag == "a"@ {
            match e.href {
                Some(href) => ActionView::Navigate(href),
                None => ActionView::Nothing,
            }
        } else if e.tag == "button"@ || (e.tag == "input"@ && e.kind == Some("submit"@)) {
            submit_from(page, id)
        } else if e.tag == "input"@ || e.tag == "textarea"@ {
            ActionView::Focus(id)
        } else {
            ActionView::Nothing
        },
    }
}

/// What clicking at a height does.
pub open spec fn click_at(page: PageView, y: int) -> ActionView {
    match hit(page.root, y) {
        Some(id) => action_for(page, id),
        None => ActionView::Nothing,
    }
}

fn collect_form_fields(form: &Element) -> (fields: Vec<(String, String)>)
    ensures
        fields.deep_view() == form_fields(form.deep_view()),
{
    let nodes = nodes_of(form);
    let ghost listed = nodes.deep_view();
    let mut fields: Vec<(String, String)> = Vec::new();
    assert(listed.take(0) =~= Seq::empty());
    assert(fields.deep_view() =~= Seq::empty());
    for i in 0..nodes.len()
        invariant
            listed == nodes.deep_view(),
            fields.deep_view() == gather(listed.take(i as int), value_pick()),
    {
        let e = nodes[i];
        let ghost held = fields.deep_view();
        proof {
            assert(listed.take(i + 1) =~= listed.take(i as int).push(e.deep_view()));
            lemma_gather_push(listed.take(i as int), e.deep_view(), value_pick());
        }
        if let Some(name) = &e.name {
            if same_text(e.tag.as_str(), "input") || same_text(e.tag.as_str(), "textarea") {
                fields.push((name.clone(), or_empty(&e.value).to_owned()));
            }
        }
        assert(fields.deep_view() =~= held + value_pick()(e.deep_view()));
    }
    assert(listed.take(listed.len() as int) =~= listed);
    fields
}

fn find_enclosing_form_submit(page: &Page, id: usize) -> (action: ClickAction)
    ensures
        action.deep_view() == submit_from(page.deep_view(), id as int),
{
    match find_enclosing_form(&page.root, id) {
        Some(form) => {
            let fields = collect_form_fields(form);
            ClickAction::Submit { action_url: action_url(form, page), query: encode_query(&fields) }
        },
        None => ClickAction::Nothing,
    }
}

/// What clicking an element does: a link leads on, a field takes the focus,
/// a button submits the form that it is in.
pub fn plan_action_for_node(page: &Page, id: usize) -> (action: ClickAction)
    ensures
        action.deep_view() == action_for(page.deep_view(), id as int),
{
    match find_node(&page.root, id) {
        None => ClickAction::Nothing,
        Some(e) => {
            if same_text(e.tag.as_str(), "a") {
                match &e.href {
                    Some(href) => ClickAction::Navigate(href.clone()),
                    None => ClickAction::Nothing,
                }
            } else if same_text(e.tag.as_str(), "button") {
                find_enclosing_form_submit(page, id)
            } else if same_text(e.tag.as_str(), "input") {
                let submits = match &e.kind {
                    Some(kind) => same_text(kind.as_str(), "submit"),
                    None => false,
                };
                if submits {
                    find_enclosing_form_submit(page, id)
                } else {
                    ClickAction::Focus(id)
                }
            } else if same_text(e.tag.as_str(), "textarea") {
                ClickAction::Focus(id)
            } else {
                ClickAction::Nothing
            }
        },
    }
}

/// What clicking at a height does, given in tenths of a pixel.
pub fn plan_click(page: &Page, y: i128) -> (action: ClickAction)
    ensures
        action.deep_view() == click_at(page.deep_view(), y as int),
{
    match hit_test(&page.root, y) {
        Some(id) => plan_action_for_node(page, id),
        None => ClickAction::Nothing,
    }
}

/// The address that an action leads to.
pub open spec fn target_of(action: ActionView) -> Option<Seq<char>> {
    match action {
        ActionView::Navigate(url) => Some(url),
        ActionView::Submit { action_url, query } => Some(submission_target(action_url, query)),
        _ => None,
    }
}

/// The address that an action leads to.
pub fn action_target(action: &ClickAction) -> (target: Option<String>)
    ensures
        target.deep_view() == target_of(action.deep_view()),
{
    match action {
        ClickAction::Navigate(url) => Some(url.clone()),
        ClickAction::Submit { action_url, query } => Some(
            submission_url(action_url.as_str(), query.as_str()),
        ),
        _ => None,
    }
}

/// The value that a field has after a key event; `None` where the event is
/// of no kind that types.
pub open spec fn value_after(
    value: Seq<char>,
    event_type: Seq<char>,
    text: Option<Seq<char>>,
    key: Option<Seq<char>>,
) -> Option<Seq<char>> {
    if event_type == "char"@ && text is Some {
        Some(value + text->0)
    } else if event_type == "keyDown"@ && key == Some("Backspace"@) {
        Some(
            if value.len() > 0 {
                value.drop_last()
            } else {
                value
            },
        )
    } else {
        None
    }
}

/// The element that keys go to.
pub open spec fn focused_element(session: SessionView) -> Option<ElementView> {
    match session.focused {
        Some(id) => node_at(session.page.root, id),
        None => None,
    }
}

/// The session with another value in the focused field.
pub open spec fn with_focused_value(session: SessionView, value: Seq<char>) -> SessionView {
    SessionView {
        page: PageView {
            root: with_value(session.page.root, session.focused->0 - 1, value),
            ..session.page
        },
        ..session
    }
}

/// The session after a key event.
pub open spec fn keyed(
    session: SessionView,
    event_type: Seq<char>,
    text: Option<Seq<char>>,
    key: Option<Seq<char>>,
) -> SessionView {
    match focused_element(session) {
        Some(e) => match value_after(text_or_empty(e.value), event_type, text, key) {
            Some(value) => with_focused_value(session, value),
            None => session,
        },
        None => session,
    }
}

/// Types into the focused field: a `char` event adds its text behind the
/// value, a `keyDown` of Backspace takes the last character away. Any other
/// event, and any without a focused field, changes nothing.
pub fn dispatch_key(
    session: &mut CdpSession,
    event_type: &str,
    text: Option<&str>,
    key: Option<&str>,
)
    ensures
        final(session).deep_view() == keyed(
            old(session).deep_view(),
            event_type@,
            text.deep_view(),
            key.deep_view(),
        ),
{
    let id: usize = match session.focused_node_id {
        Some(id) => id,
        None => {
            return;
        },
    };
    let mut value = match find_node(&session.page.root, id) {
        Some(e) => or_empty(&e.value).to_owned(),
        None => {
            return;
        },
    };
    let backspace = match key {
        Some(key) => same_text(key, "Backspace"),
        None => false,
    };
    if same_text(event_type, "char") && text.is_some() {
        if let Some(text) = text {
            value.append(text);
        }
    } else if same_text(event_type, "keyDown") && backspace {
        let _ = value.pop();
    } else {
        return;
    }
    set_value(&mut session.page.root, id - 1, value);
}

/// Without a focused field, keys do nothing.
pub proof fn law_keys_need_focus(
    session: SessionView,
    event_type: Seq<char>,
    text: Option<Seq<char>>,
    key: Option<Seq<char>>,
)
    requires
        session.focused is None,
    ensures
        keyed(session, event_type, text, key) == session,
{
}

proof fn lemma_focused_value(session: SessionView, value: Seq<char>)
    requires
        focused_element(session) is Some,
    ensures
        ({
            let new = with_focused_value(session, value);
            focused_element(new) is Some && focused_element(new)->0.value == Some(value)
        }),
{
    let at = session.focused->0 - 1;
    law_with_value_changes_one_value(session.page.root, at, value);
    let new = with_focused_value(session, value);
    let e = preorder(new.page.root)[at];
    assert(crate::tree::alone(e).value == e.value);
}

/// Text that is typed in two pieces ends up as text that is typed in one.
pub proof fn law_typing_adds_up(session: SessionView, first: Seq<char>, second: Seq<char>)
    ensures
        keyed(keyed(session, "char"@, Some(first), None), "char"@, Some(second), None) == keyed(
            session,
            "char"@,
            Some(first + second),
            None,
        ),
{
    if let Some(e) = focused_element(session) {
        let value = text_or_empty(e.value);
        lemma_focused_value(session, value + first);
        law_later_value_counts(
            session.page.root,
            session.focused->0 - 1,
            value + first,
            value + first + second,
        );
        assert(value + (first + second) =~= value + first + second);
    }
}

/// Backspace takes back a character that was typed: the field has the value
/// again that it had before. (A field without a value has an empty one.)
pub proof fn law_backspace_takes_back(session: SessionView, c: char)
    requires
        focused_element(session) is Some,
    ensures
        ({
            let e = focused_element(session)->0;
            let typed = keyed(session, "char"@, Some(seq![c]), None);
            let back = keyed(typed, "keyDown"@, None, Some("Backspace"@));
            &&& back == with_focused_value(session, text_or_empty(e.value))
            &&& e.value is Some ==> back == session
        }),
{
    reveal_strlit("char");
    reveal_strlit("keyDown");
    assert("char"@.len() != "keyDown"@.len());
    let e = focused_element(session)->0;
    let value = text_or_empty(e.value);
    let at = session.focused->0 - 1;
    lemma_focused_value(session, value + seq![c]);
    law_later_value_counts(session.page.root, at, value + seq![c], value);
    assert((value + seq![c]).drop_last() =~= value);
    if e.value is Some {
        law_own_value_changes_nothing(session.page.root, at, value);
    }
}

/// Keys change one value and nothing else: not the focus, not what the page
/// says otherwise, not the number of any element.
pub proof fn law_keys_change_one_value(
    session: SessionView,
    event_type: Seq<char>,
    text: Option<Seq<char>>,
    key: Option<Seq<char>>,
    k: int,
)
    requires
        0 <= k < preorder(session.page.root).len(),
        session.focused != Some(k + 1),
    ensures
        ({
            let new = keyed(session, event_type, text, key);
            &&& new.focused == session.focused
            &&& new.page == (PageView { root: new.page.root, ..session.page })
            &&& preorder(new.page.root).len() == preorder(session.page.root).len()
            &&& crate::tree::alone(preorder(new.page.root)[k]) == crate::tree::alone(
                preorder(session.page.root)[k],
            )
        }),
{
    if let Some(e) = focused_element(session) {
        if let Some(value) = value_after(text_or_empty(e.value), event_type, text, key) {
            law_with_value_changes_one_value(session.page.root, session.focused->0 - 1, value);
            assert(preorder(session.page.root)[k] == preorder(session.page.root)[k]);
        }
    }
}

/// A click hits an element that is drawn at its height, and none before it
/// in the page is.
pub proof fn law_click_hits_the_first_at_its_height(root: ElementView, y: int)
    ensures
        match hit(root, y) {
            Some(id) => {
                &&& node_at(root, id) is Some
                &&& is_hit(node_at(root, id)->0, y)
                &&& forall|k: int| 1 <= k < id ==> !is_hit((#[trigger] node_at(root, k))->0, y)
            },
            None => forall|k: int|
                1 <= k <= preorder(root).len() ==> !is_hit((#[trigger] node_at(root, k))->0, y),
        },
{
    let test = hit_test_at(y);
    lemma_first_where(preorder(root), test);
    assert forall|k: int| 1 <= k <= first_where(preorder(root), test) implies !is_hit(
        (#[trigger] node_at(root, k))->0,
        y,
    ) by {
        assert(!test(preorder(root)[k - 1]));
    }
}

/// A click inside the box of a drawn element hits that element, once the
/// page is laid out. The first pixel of the box is left out: an element
/// without any height that stands before it is at that height too.
pub proof fn law_click_in_a_box_hits_its_element(root: ElementView, width: int, id: int, y: int)
    requires
        0 <= width <= u64::MAX,
        extent(root, width) <= u64::MAX,
        node_at(laid_out(root, 0, width), id) is Some,
        ({
            let e = node_at(laid_out(root, 0, width), id)->0;
            &&& e.children.len() == 0
            &&& e.tag != "head"@ && e.tag != "script"@ && e.tag != "style"@
            &&& e.layout->0.y + 10 <= y < e.layout->0.y + e.layout->0.height
        }),
    ensures
        hit(laid_out(root, 0, width), y) == Some(id),
{
    let laid = laid_out(root, 0, width);
    let nodes = preorder(laid);
    let test = hit_test_at(y);
    law_every_element_is_boxed(root, 0, width, id - 1);
    assert forall|k: int| 0 <= k < id - 1 implies !test(#[trigger] nodes[k]) by {
        if nodes[k].children.len() == 0 {
            law_boxes_come_in_order(root, 0, width, k, id - 1);
        }
    }
    lemma_first_where_is(nodes, test, id - 1);
}

/// Calling a tool is submitting its form: a call whose arguments name none
/// of the form's fields submits what a click on the form's button does, to
/// the same address. A form with a `<select>` that has a name is left out:
/// a call submits that field and a click does not.
pub proof fn law_calling_a_tool_is_submitting_its_form(
    page: PageView,
    tool_name: Seq<char>,
    arguments: JsonView,
    id: int,
)
    requires
        submission_of(page, tool_name, arguments) is Some,
        enclosing_form(page.root, id) == Some(
            first_where(preorder(page.root), tool_test(tool_name)) + 1,
        ),
        ({
            let form = preorder(page.root)[first_where(preorder(page.root), tool_test(tool_name))];
            forall|k: int|
                0 <= k < preorder(form).len() ==> {
                    let e = #[trigger] preorder(form)[k];
                    &&& e.tag == "select"@ ==> e.name is None
                    &&& field_name_of(e) is Some ==> arguments.field(field_name_of(e)->0) is None
                }
        }),
    ensures
        submit_from(page, id) == (ActionView::Submit {
            action_url: (submission_of(page, tool_name, arguments)->Some_0).0,
            query: (submission_of(page, tool_name, arguments)->Some_0).1,
        }),
{
    let form = preorder(page.root)[first_where(preorder(page.root), tool_test(tool_name))];
    reveal_strlit("select");
    reveal_strlit("input");
    reveal_strlit("textarea");
    lemma_gather_same(preorder(form), argument_pick(arguments), value_pick());
}

/// Whether element number `form` of a tree is the closest `<form>` at or
/// above element number `id`.
pub open spec fn is_form_around(root: ElementView, form: int, id: int) -> bool {
    let nodes = preorder(root);
    &&& 1 <= form <= id <= nodes.len()
    &&& id < form + preorder(nodes[form - 1]).len()
    &&& nodes[form - 1].tag == "form"@
    &&& forall|b: int|
        form < b <= id && id < b + preorder(#[trigger] nodes[b - 1]).len() ==> nodes[b - 1].tag
            != "form"@
}

proof fn lemma_form_around(root: ElementView, form: int, id: int)
    ensures
        is_form_around(root, form, id) <==> enclosing_form(root, id) == Some(form),
{
    law_enclosing_form_is_the_closest(root, id);
    let nodes = preorder(root);
    if is_form_around(root, form, id) {
        assert(encloses(root, form, id));
        assert(is_form(nodes[form - 1]));
        if let Some(a) = enclosing_form(root, id) {
            if form < a {
                assert(nodes[a - 1].tag == "form"@);
            }
        }
    }
    if enclosing_form(root, id) == Some(form) {
        assert forall|b: int|
            form < b <= id && id < b + preorder(#[trigger] nodes[b - 1]).len() implies nodes[b
            - 1].tag != "form"@ by {
            assert(encloses(root, b, id));
        }
    }
}

/// Submitting sends what the fields of the form hold: for each `<input>` and
/// each `<textarea>` in it that has a name, in document order, the name and
/// the value, and nothing else. It goes to the form's action, else to the
/// page's own address.
pub open spec fn submits(action: ActionView, page: PageView, form: ElementView) -> bool {
    exists|fields: Seq<(Seq<char>, Seq<char>)>|
        {
            &&& action == (ActionView::Submit {
                action_url: match (form.href, page.url) {
                    (Some(href), _) => href,
                    (None, Some(url)) => url,
                    (None, None) => Seq::empty(),
                },
                query: #[trigger] query_of(fields),
            })
            &&& lists(
                fields,
                preorder(form),
                |e: ElementView| e.name is Some && (e.tag == "input"@ || e.tag == "textarea"@),
                |e: ElementView|
                    (
                        e.name->0,
                        match e.value {
                            Some(value) => value,
                            None => Seq::empty(),
                        },
                    ),
            )
        }
}

proof fn lemma_submits(page: PageView, form: int, id: int)
    requires
        is_form_around(page.root, form, id),
    ensures
        submits(submit_from(page, id), page, preorder(page.root)[form - 1]),
{
    lemma_form_around(page.root, form, id);
    let e = preorder(page.root)[form - 1];
    let fields = form_fields(e);
    lemma_gather_lists(
        preorder(e),
        value_pick(),
        |e: ElementView| e.name is Some && (e.tag == "input"@ || e.tag == "textarea"@),
        |e: ElementView|
            (
                e.name->0,
                match e.value {
                    Some(value) => value,
                    None => Seq::empty(),
                },
            ),
    );
    assert(query_of(fields) == query_of(fields));
}

/// Clicking a `<button>` submits the form that it is in, and so does clicking
/// an `<input>` of type `submit`. Where there is no form around it, nothing
/// happens. No other attribute of the button counts.
pub proof fn law_button_submits_its_form(page: PageView, id: int, form: int)
    requires
        1 <= id <= preorder(page.root).len(),
        preorder(page.root)[id - 1].tag == "button"@ || (preorder(page.root)[id - 1].tag
            == "input"@ && preorder(page.root)[id - 1].kind == Some("submit"@)),
    ensures
        is_form_around(page.root, form, id) ==> submits(
            action_for(page, id),
            page,
            preorder(page.root)[form - 1],
        ),
        (forall|a: int| !is_form_around(page.root, a, id)) ==> action_for(page, id)
            == ActionView::Nothing,
{
    reveal_strlit("a");
    reveal_strlit("input");
    reveal_strlit("button");
    assert("a"@.len() == 1 && "input"@.len() == 5 && "button"@.len() == 6);
    if is_form_around(page.root, form, id) {
        lemma_submits(page, form, id);
    }
    if enclosing_form(page.root, id) is Some {
        lemma_form_around(page.root, enclosing_form(page.root, id)->0, id);
    }
}

/// Clicking a link leads to its address; one without an address does
/// nothing. No other attribute counts.
pub proof fn law_link_leads_to_its_address(page: PageView, id: int)
    requires
        1 <= id <= preorder(page.root).len(),
        preorder(page.root)[id - 1].tag == "a"@,
    ensures
        preorder(page.root)[id - 1].href matches Some(href) ==> action_for(page, id)
            == ActionView::Navigate(href),
        preorder(page.root)[id - 1].href is None ==> action_for(page, id) == ActionView::Nothing,
{
}

/// Clicking a `<textarea>`, or an `<input>` of any type but `submit`, gives
/// it the focus.
pub proof fn law_field_takes_the_focus(page: PageView, id: int)
    requires
        1 <= id <= preorder(page.root).len(),
        ({
            let e = preorder(page.root)[id - 1];
            e.tag == "textarea"@ || (e.tag == "input"@ && e.kind != Some("submit"@))
        }),
    ensures
        action_for(page, id) == ActionView::Focus(id),
{
    reveal_strlit("a");
    reveal_strlit("input");
    reveal_strlit("button");
    reveal_strlit("textarea");
    assert("a"@.len() == 1 && "input"@.len() == 5 && "button"@.len() == 6 && "textarea"@.len()
        == 8);
}

/// Clicking any other element does nothing, and neither does clicking by a
/// number that no element has.
pub proof fn law_other_clicks_do_nothing(page: PageView, id: int)
    requires
        1 <= id <= preorder(page.root).len() ==> {
            let tag = preorder(page.root)[id - 1].tag;
            tag != "a"@ && tag != "button"@ && tag != "input"@ && tag != "textarea"@
        },
    ensures
        action_for(page, id) == ActionView::Nothing,
{
}

/// Whether two pages look the same to a click: they have the same address,
/// and elements in the same places with the same tags, addresses, names and
/// values. Other attributes may differ.
pub open spec fn same_for_clicks(p: PageView, q: PageView) -> bool {
    &&& p.url == q.url
    &&& preorder(p.root).len() == preorder(q.root).len()
    &&& forall|k: int|
        0 <= k < preorder(p.root).len() ==> {
            let a = #[trigger] preorder(p.root)[k];
            let b = preorder(q.root)[k];
            &&& preorder(a).len() == preorder(b).len()
            &&& a.tag == b.tag && a.href == b.href && a.name == b.name && a.value == b.value
        }
}

/// What a click on a button does depends on no other attribute than the
/// tags, addresses, names and values of the page: not on the type of the
/// button, nor on how the form is declared.
pub proof fn law_button_type_does_not_count(p: PageView, q: PageView, id: int)
    requires
        same_for_clicks(p, q),
        1 <= id <= preorder(p.root).len(),
        preorder(p.root)[id - 1].tag == "button"@,
    ensures
        action_for(p, id) == action_for(q, id),
{
    reveal_strlit("a");
    reveal_strlit("button");
    assert("a"@.len() == 1 && "button"@.len() == 6);
    let ps = preorder(p.root);
    let qs = preorder(q.root);
    assert(ps[id - 1].tag == qs[id - 1].tag);
    lemma_same_form(p, q, id, id);
    if let Some(a) = enclosing_form(p.root, id) {
        law_enclosing_form_is_the_closest(p.root, id);
        let f = ps[a - 1];
        let g = qs[a - 1];
        assert(preorder(f).len() == preorder(g).len());
        assert forall|k: int| 0 <= k < preorder(f).len() implies value_pick()(
            #[trigger] preorder(f)[k],
        ) == value_pick()(preorder(g)[k]) by {
            law_numbers_of_a_subtree(p.root, a, a + k);
            law_numbers_of_a_subtree(q.root, a, a + k);
            assert(ps[a + k - 1] == preorder(f)[k]);
            assert(qs[a + k - 1] == preorder(g)[k]);
        }
        lemma_gather_pairwise(preorder(f), preorder(g), value_pick());
    }
}

proof fn lemma_gather_pairwise(
    s: Seq<ElementView>,
    t: Seq<ElementView>,
    f: spec_fn(ElementView) -> Seq<(Seq<char>, Seq<char>)>,
)
    requires
        s.len() == t.len(),
        forall|k: int| 0 <= k < s.len() ==> f(#[trigger] s[k]) == f(t[k]),
    ensures
        gather(s, f) == gather(t, f),
    decreases s.len(),
{
    if s.len() > 0 {
        assert forall|k: int| 0 <= k < s.len() - 1 implies f(#[trigger] s.drop_last()[k]) == f(
            t.drop_last()[k],
        ) by {
            assert(s.drop_last()[k] == s[k]);
        }
        lemma_gather_pairwise(s.drop_last(), t.drop_last(), f);
        assert(f(s[s.len() - 1]) == f(t[t.len() - 1]));
    }
}

proof fn lemma_same_form(p: PageView, q: PageView, id: int, from: int)
    requires
        same_for_clicks(p, q),
        from <= id <= preorder(p.root).len(),
    ensures
        form_from(p.root, id, from) == form_from(q.root, id, from),
    decreases from,
{
    if from >= 1 {
        assert(preorder(p.root)[from - 1].tag == preorder(q.root)[from - 1].tag);
        lemma_same_form(p, q, id, from - 1);
    }
}

/// Clicking at a height does what clicking the element there does: the first
/// in the page without children, and drawn, whose box spans the height. A
/// box less than a pixel high counts as one pixel high.
pub proof fn law_click_acts_on_the_element_there(page: PageView, y: int, id: int)
    requires
        1 <= id <= preorder(page.root).len(),
        forall|k: int|
            1 <= k <= id ==> {
                let e = #[trigger] preorder(page.root)[k - 1];
                let there = e.children.len() == 0 && e.tag != "head"@ && e.tag != "script"@
                    && e.tag != "style"@ && e.layout is Some && e.layout->0.y <= y && (y
                    < e.layout->0.y + e.layout->0.height || y < e.layout->0.y + 10);
                there <==> k == id
            },
    ensures
        click_at(page, y) == action_for(page, id),
{
    let nodes = preorder(page.root);
    let test = hit_test_at(y);
    assert forall|k: int| 0 <= k < id - 1 implies !test(#[trigger] nodes[k]) by {
        assert(nodes[(k + 1) - 1] == nodes[k]);
    }
    assert(test(nodes[id - 1]));
    lemma_first_where_is(nodes, test, id - 1);
}

/// Clicking where no element without children is drawn does nothing.
pub proof fn law_click_beside_everything_does_nothing(page: PageView, y: int)
    requires
        forall|k: int|
            0 <= k < preorder(page.root).len() ==> {
                let e = #[trigger] preorder(page.root)[k];
                ||| e.children.len() > 0
                ||| e.tag == "head"@ || e.tag == "script"@ || e.tag == "style"@
                ||| e.layout is None
                ||| y < e.layout->0.y
                ||| y >= e.layout->0.y + e.layout->0.height && y >= e.layout->0.y + 10
            },
    ensures
        click_at(page, y) == ActionView::Nothing,
{
    let nodes = preorder(page.root);
    let test = hit_test_at(y);
    lemma_first_where_is(nodes, test, nodes.len() as int);
}

/// An action leads where it says: a link to its address, a form to the
/// address that it is submitted to; the focus leads nowhere.
pub proof fn law_actions_lead_where_they_say(url: Seq<char>, query: Seq<char>, id: int)
    ensures
        target_of(ActionView::Navigate(url)) == Some(url),
        target_of(ActionView::Submit { action_url: url, query }) == Some(
            submission_target(url, query),
        ),
        target_of(ActionView::Focus(id)) is None,
        target_of(ActionView::Nothing) is None,
{
}

/// A key event types into the focused field: a `char` event puts its text
/// behind what the field holds, a `keyDown` of Backspace takes the last
/// character of it away, where there is one. Every other event leaves the
/// session as it is.
pub proof fn law_keys_type_at_the_end(
    session: SessionView,
    event_type: Seq<char>,
    text: Option<Seq<char>>,
    key: Option<Seq<char>>,
)
    requires
        session.focused matches Some(id) && 1 <= id <= preorder(session.page.root).len(),
    ensures
        ({
            let at = session.focused->0 - 1;
            let held = match preorder(session.page.root)[at].value {
                Some(value) => value,
                None => Seq::empty(),
            };
            let new = keyed(session, event_type, text, key);
            let value = preorder(new.page.root)[at].value;
            &&& event_type == "char"@ && text is Some ==> value == Some(held + text->0)
            &&& event_type == "keyDown"@ && key == Some("Backspace"@) && held.len() > 0 ==> value
                == Some(held.take(held.len() - 1))
            &&& event_type == "keyDown"@ && key == Some("Backspace"@) && held.len() == 0 ==> value
                == Some(held)
            &&& event_type == "char"@ && text is None ==> new == session
            &&& event_type == "keyDown"@ && key != Some("Backspace"@) ==> new == session
            &&& event_type != "char"@ && event_type != "keyDown"@ ==> new == session
        }),
{
    reveal_strlit("char");
    reveal_strlit("keyDown");
    assert("char"@.len() != "keyDown"@.len());
    let e = focused_element(session)->0;
    let held = text_or_empty(e.value);
    if let Some(value) = value_after(held, event_type, text, key) {
        lemma_focused_value(session, value);
    }
    if held.len() > 0 {
        assert(held.drop_last() =~= held.take(held.len() - 1));
    }
}

/// A page that came as a response has the address that it came from, its
/// links are joined to that address, it has the cookies that came with it,
/// and its elements have the boxes of a viewport 1024 pixels wide, unless it
/// is too high for any. What else it says is what its text says.
pub proof fn law_page_of_a_response(
    parsed: PageView,
    final_url: Seq<char>,
    set_cookies: Seq<Seq<char>>,
)
    ensures
        ({
            let page = page_of_response(parsed, final_url, set_cookies);
            let joined = resolved_page(final_url, parsed);
            &&& page.url == Some(final_url)
            &&& page.cookies == cookies_in(set_cookies)
            &&& page.links == joined.links
            &&& page.title == parsed.title && page.text == parsed.text && page.meta == parsed.meta
                && page.source == parsed.source
            &&& extent(joined.root, 10240) <= u64::MAX ==> page.root == laid_out(
                joined.root,
                0,
                10240,
            )
            &&& extent(joined.root, 10240) > u64::MAX ==> page.root == joined.root
        }),
{
}

} // verus!
