//! A page and the tree of its elements.

use crate::seqs::{first_where, lemma_first_where_is};
use crate::text::same_text;
use vstd::prelude::*;

verus! {

/// An element's box: `x`/`y` are its top-left corner and `width`/`height`
/// its size, all in tenths of a pixel. `x` is always 0: layout only stacks
/// elements vertically, there is no horizontal positioning.
#[derive(Debug, Clone, Copy, PartialEq, Eq, Structural)]
pub struct Layout {
    pub x: u64,
    pub y: u64,
    pub width: u64,
    pub height: u64,
}

/// One element of a page.
#[derive(Debug)]
pub struct Element {
    pub tag: String,
    pub text: String,
    /// The element's primary URL-ish attribute: `href` of an `<a>`, `action`
    /// of a `<form>`. `None` for every other tag.
    pub href: Option<String>,
    pub children: Vec<Element>,
    pub layout: Option<Layout>,
    /// The current value of an `<input>`/`<textarea>`: its `value`
    /// attribute (or the element's own text, for `<textarea>`) at first,
    /// whatever has been typed afterwards.
    pub value: Option<String>,
    /// The `name` attribute, used to build a form's query string.
    pub name: Option<String>,
    /// The `type` attribute.
    pub kind: Option<String>,
    /// The `toolname` attribute: a `<form>` that has one is a tool.
    pub tool_name: Option<String>,
    /// The `tooldescription` attribute of a tool form.
    pub tool_description: Option<String>,
    /// Whether the `toolautosubmit` attribute is there.
    pub tool_autosubmit: bool,
    /// The `toolparamdescription` attribute of a form field.
    pub tool_param_description: Option<String>,
    /// Whether the `required` attribute is there.
    pub required: bool,
    /// The `method` attribute of a `<form>`.
    pub method: Option<String>,
    /// The `alt` attribute: `None` when it is missing, which is not the
    /// same as an empty one.
    pub alt: Option<String>,
    /// The `lang` attribute.
    pub lang: Option<String>,
}

/// What an element is, as a mathematical value.
#[verifier::ext_equal]
pub struct ElementView {
    pub tag: Seq<char>,
    pub text: Seq<char>,
    pub href: Option<Seq<char>>,
    pub children: Seq<ElementView>,
    pub layout: Option<Layout>,
    pub value: Option<Seq<char>>,
    pub name: Option<Seq<char>>,
    pub kind: Option<Seq<char>>,
    pub tool_name: Option<Seq<char>>,
    pub tool_description: Option<Seq<char>>,
    pub tool_autosubmit: bool,
    pub tool_param_description: Option<Seq<char>>,
    pub required: bool,
    pub method: Option<Seq<char>>,
    pub alt: Option<Seq<char>>,
    pub lang: Option<Seq<char>>,
}

impl Element {
    pub open spec fn model(&self) -> ElementView
        decreases self,
    {
        ElementView {
            tag: self.tag@,
            text: self.text@,
            href: self.href.deep_view(),
            children: Seq::new(
                self.children@.len(),
                |i: int|
                    if 0 <= i < self.children@.len() {
                        self.children@[i].model()
                    } else {
                        arbitrary()
                    },
            ),
            layout: self.layout,
            value: self.value.deep_view(),
            name: self.name.deep_view(),
            kind: self.kind.deep_view(),
            tool_name: self.tool_name.deep_view(),
            tool_description: self.tool_description.deep_view(),
            tool_autosubmit: self.tool_autosubmit,
            tool_param_description: self.tool_param_description.deep_view(),
            required: self.required,
            method: self.method.deep_view(),
            alt: self.alt.deep_view(),
            lang: self.lang.deep_view(),
        }
    }
}

impl DeepView for Element {
    type V = ElementView;

    open spec fn deep_view(&self) -> ElementView {
        self.model()
    }
}

/// The children of an element's model are the models of its children.
pub broadcast proof fn lemma_children(e: &Element)
    ensures
        (#[trigger] e.model()).children == e.children.deep_view(),
{
    assert(e.model().children =~= e.children.deep_view()) by {
        assert forall|i: int| 0 <= i < e.children@.len() implies e.model().children[i]
            == e.children@[i].model() by {}
    }
}

/// A copy of an optional text.
pub fn copy_text(value: &Option<String>) -> (copy: Option<String>)
    ensures
        copy.deep_view() == value.deep_view(),
{
    match value {
        Some(text) => Some(text.clone()),
        None => None,
    }
}

impl Clone for Element {
    fn clone(&self) -> (copy: Self)
        ensures
            copy.deep_view() == self.deep_view(),
        decreases self,
    {
        let mut children: Vec<Element> = Vec::new();
        for i in 0..self.children.len()
            invariant
                children@.len() == i,
                forall|k: int|
                    0 <= k < i ==> #[trigger] children@[k].model() == self.children@[k].model(),
        {
            children.push(self.children[i].clone());
        }
        let copy = Element {
            tag: self.tag.clone(),
            text: self.text.clone(),
            href: copy_text(&self.href),
            children,
            layout: self.layout,
            value: copy_text(&self.value),
            name: copy_text(&self.name),
            kind: copy_text(&self.kind),
            tool_name: copy_text(&self.tool_name),
            tool_description: copy_text(&self.tool_description),
            tool_autosubmit: self.tool_autosubmit,
            tool_param_description: copy_text(&self.tool_param_description),
            required: self.required,
            method: copy_text(&self.method),
            alt: copy_text(&self.alt),
            lang: copy_text(&self.lang),
        };
        proof {
            lemma_children(&copy);
            lemma_children(self);
            assert(copy.children.deep_view() =~= self.children.deep_view());
        }
        copy
    }
}

impl Default for Element {
    /// An element without attributes, text or children.
    fn default() -> (element: Self)
        ensures
            element.deep_view() == bare_element(),
    {
        let element = Element {
            tag: String::new(),
            text: String::new(),
            href: None,
            children: Vec::new(),
            layout: None,
            value: None,
            name: None,
            kind: None,
            tool_name: None,
            tool_description: None,
            tool_autosubmit: false,
            tool_param_description: None,
            required: false,
            method: None,
            alt: None,
            lang: None,
        };
        assert(element.model().children =~= Seq::empty());
        element
    }
}

/// The element without attributes, text or children.
pub open spec fn bare_element() -> ElementView {
    ElementView {
        tag: Seq::empty(),
        text: Seq::empty(),
        href: None,
        children: Seq::empty(),
        layout: None,
        value: None,
        name: None,
        kind: None,
        tool_name: None,
        tool_description: None,
        tool_autosubmit: false,
        tool_param_description: None,
        required: false,
        method: None,
        alt: None,
        lang: None,
    }
}

/// A cookie that a server set.
#[derive(Debug)]
pub struct CookieInfo {
    pub name: String,
    pub value: String,
    pub domain: Option<String>,
    pub path: Option<String>,
    pub secure: bool,
    pub http_only: bool,
    pub same_site: Option<String>,
}

/// What a cookie is, as a mathematical value.
#[verifier::ext_equal]
pub struct CookieView {
    pub name: Seq<char>,
    pub value: Seq<char>,
    pub domain: Option<Seq<char>>,
    pub path: Option<Seq<char>>,
    pub secure: bool,
    pub http_only: bool,
    pub same_site: Option<Seq<char>>,
}

impl DeepView for CookieInfo {
    type V = CookieView;

    open spec fn deep_view(&self) -> CookieView {
        CookieView {
            name: self.name@,
            value: self.value@,
            domain: self.domain.deep_view(),
            path: self.path.deep_view(),
            secure: self.secure,
            http_only: self.http_only,
            same_site: self.same_site.deep_view(),
        }
    }
}

/// A page: what a document says, and the tree of its elements.
#[derive(Debug)]
pub struct Page {
    /// Where the page came from, after redirects.
    pub url: Option<String>,
    pub title: Option<String>,
    pub text: String,
    pub links: Vec<String>,
    pub root: Element,
    /// Every `<meta>` of the `<head>` with a `content` and a `name` (or else a
    /// `property`), as key and content, in source order.
    pub meta: Vec<(String, String)>,
    /// The cookies that the server set with this page.
    pub cookies: Vec<CookieInfo>,
    /// The document as it was read.
    pub source: Option<String>,
}

/// What a page is, as a mathematical value.
#[verifier::ext_equal]
pub struct PageView {
    pub url: Option<Seq<char>>,
    pub title: Option<Seq<char>>,
    pub text: Seq<char>,
    pub links: Seq<Seq<char>>,
    pub root: ElementView,
    pub meta: Seq<(Seq<char>, Seq<char>)>,
    pub cookies: Seq<CookieView>,
    pub source: Option<Seq<char>>,
}

impl DeepView for Page {
    type V = PageView;

    open spec fn deep_view(&self) -> PageView {
        PageView {
            url: self.url.deep_view(),
            title: self.title.deep_view(),
            text: self.text@,
            links: self.links.deep_view(),
            root: self.root.deep_view(),
            meta: self.meta.deep_view(),
            cookies: self.cookies.deep_view(),
            source: self.source.deep_view(),
        }
    }
}

/// A copy of a list of texts.
pub fn copy_texts(texts: &Vec<String>) -> (copy: Vec<String>)
    ensures
        copy.deep_view() == texts.deep_view(),
{
    let mut copy: Vec<String> = Vec::new();
    for i in 0..texts.len()
        invariant
            copy.deep_view() == texts.deep_view().take(i as int),
    {
        let ghost held = copy.deep_view();
        copy.push(texts[i].clone());
        assert(copy.deep_view() =~= held.push(texts@[i as int]@));
        assert(texts.deep_view().take(i + 1) =~= held.push(texts@[i as int]@));
    }
    assert(texts.deep_view().take(texts@.len() as int) =~= texts.deep_view());
    copy
}

impl Clone for CookieInfo {
    fn clone(&self) -> (copy: Self)
        ensures
            copy.deep_view() == self.deep_view(),
    {
        CookieInfo {
            name: self.name.clone(),
            value: self.value.clone(),
            domain: copy_text(&self.domain),
            path: copy_text(&self.path),
            secure: self.secure,
            http_only: self.http_only,
            same_site: copy_text(&self.same_site),
        }
    }
}

impl Clone for Page {
    fn clone(&self) -> (copy: Self)
        ensures
            copy.deep_view() == self.deep_view(),
    {
        let mut meta: Vec<(String, String)> = Vec::new();
        for i in 0..self.meta.len()
            invariant
                meta@.len() == i,
                forall|k: int|
                    0 <= k < i ==> (#[trigger] meta@[k]).deep_view() == self.meta@[k].deep_view(),
        {
            meta.push((self.meta[i].0.clone(), self.meta[i].1.clone()));
        }
        assert(meta.deep_view() =~= self.meta.deep_view());
        let mut cookies: Vec<CookieInfo> = Vec::new();
        for i in 0..self.cookies.len()
            invariant
                cookies@.len() == i,
                forall|k: int|
                    0 <= k < i ==> (#[trigger] cookies@[k]).deep_view()
                        == self.cookies@[k].deep_view(),
        {
            cookies.push(self.cookies[i].clone());
        }
        assert(cookies.deep_view() =~= self.cookies.deep_view());
        Page {
            url: copy_text(&self.url),
            title: copy_text(&self.title),
            text: self.text.clone(),
            links: copy_texts(&self.links),
            root: self.root.clone(),
            meta,
            cookies,
            source: copy_text(&self.source),
        }
    }
}

/// What a script is to be run on.
#[derive(Debug)]
pub struct EvalRequest {
    pub page: Page,
    pub script: String,
}

/// What running a script gave.
#[derive(Debug)]
pub struct EvalResponse {
    pub value: Option<String>,
    pub error: Option<String>,
}

pub open spec fn key_test(key: Seq<char>) -> spec_fn((Seq<char>, Seq<char>)) -> bool {
    |pair: (Seq<char>, Seq<char>)| pair.0 == key
}

/// What stands with the first pair that has the key.
pub open spec fn lookup(pairs: Seq<(Seq<char>, Seq<char>)>, key: Seq<char>) -> Option<Seq<char>> {
    let at = first_where(pairs, key_test(key));
    if at < pairs.len() {
        Some(pairs[at].1)
    } else {
        None
    }
}

/// What stands with the first pair that has the key.
pub fn meta_lookup<'a>(meta: &'a Vec<(String, String)>, key: &str) -> (found: Option<&'a str>)
    ensures
        found.deep_view() == lookup(meta.deep_view(), key@),
{
    for i in 0..meta.len()
        invariant
            forall|k: int| 0 <= k < i ==> !key_test(key@)(#[trigger] meta.deep_view()[k]),
    {
        assert(meta.deep_view()[i as int] == meta@[i as int].deep_view());
        if same_text(meta[i].0.as_str(), key) {
            proof {
                lemma_first_where_is(meta.deep_view(), key_test(key@), i as int);
            }
            return Some(meta[i].1.as_str());
        }
    }
    proof {
        lemma_first_where_is(meta.deep_view(), key_test(key@), meta@.len() as int);
    }
    None
}

/// What stands with a key is what stands with the first pair that has it;
/// without such a pair there is nothing.
pub proof fn law_first_pair_counts(pairs: Seq<(Seq<char>, Seq<char>)>, key: Seq<char>, at: int)
    requires
        0 <= at <= pairs.len(),
        forall|k: int| 0 <= k < at ==> (#[trigger] pairs[k]).0 != key,
        at < pairs.len() ==> pairs[at].0 == key,
    ensures
        lookup(pairs, key) == if at < pairs.len() {
            Some(pairs[at].1)
        } else {
            None
        },
{
    lemma_first_where_is(pairs, key_test(key), at);
}

} // verus!
