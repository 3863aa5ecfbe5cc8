//! From a parsed document to a page.

use crate::dom::{
    fits_parser, html_document, lemma_dom_children, parse_dom, DomData, DomDataView, DomNode, DomView,
};
use crate::model::{
    key_test, lemma_children, lookup, meta_lookup, Element, ElementView, Page, PageView,
};
use crate::seqs::{
    concat, first_where, gather, lemma_first_where_is, lemma_gather_lists, lemma_gather_push, lists,
};
use crate::text::{
    law_normalizing_keeps_the_words, law_normalizing_twice, law_white_space_parts_words,
    lemma_normalized_empty, normalize_text, normalized, same_text, white_space, words,
};
use vstd::prelude::*;

verus! {

/// The tag that a node is shown under.
pub open spec fn tag_of(node: DomView) -> Seq<char> {
    match node.data {
        DomDataView::Element { tag, .. } => tag,
        DomDataView::Document => "document"@,
        _ => "text"@,
    }
}

/// The value of an attribute, where the node has it.
pub open spec fn attr_of(node: DomView, name: Seq<char>) -> Option<Seq<char>> {
    match node.data {
        DomDataView::Element { attrs, .. } => lookup(attrs, name),
        _ => None,
    }
}

/// Where an element leads: the `href` of an `<a>`, the `action` of a
/// `<form>`. No other element leads anywhere.
pub open spec fn href_of(node: DomView) -> Option<Seq<char>> {
    if tag_of(node) == "form"@ {
        attr_of(node, "action"@)
    } else if tag_of(node) == "a"@ {
        attr_of(node, "href"@)
    } else {
        None
    }
}

/// Whether the content of a tag is left out of the tree.
pub open spec fn opaque_tag(tag: Seq<char>) -> bool {
    tag == "head"@ || tag == "script"@ || tag == "style"@
}

/// Whether a node becomes an element of the tree.
pub open spec fn becomes_element(node: DomView) -> bool {
    node.data is Element || node.data is Document
}

/// The element that a node becomes: its attributes, the elements that its
/// child nodes become, and all text below it, normalized.
pub open spec fn element_of(node: DomView) -> ElementView
    decreases node,
{
    let tag = tag_of(node);
    let text = if opaque_tag(tag) {
        Seq::empty()
    } else {
        normalized(loose_text(node.children))
    };
    let value = attr_of(node, "value"@);
    ElementView {
        tag,
        text,
        href: href_of(node),
        children: if opaque_tag(tag) { Seq::empty() } else { elements_of(node.children) },
        layout: None,
        value: if tag == "textarea"@ && value is None { Some(text) } else { value },
        name: attr_of(node, "name"@),
        kind: attr_of(node, "type"@),
        tool_name: attr_of(node, "toolname"@),
        tool_description: attr_of(node, "tooldescription"@),
        tool_autosubmit: attr_of(node, "toolautosubmit"@) is Some,
        tool_param_description: attr_of(node, "toolparamdescription"@),
        required: attr_of(node, "required"@) is Some,
        method: attr_of(node, "method"@),
        alt: attr_of(node, "alt"@),
        lang: attr_of(node, "lang"@),
    }
}

/// The elements that the nodes become.
pub open spec fn elements_of(nodes: Seq<DomView>) -> Seq<ElementView>
    decreases nodes,
{
    if nodes.len() == 0 {
        Seq::empty()
    } else if becomes_element(nodes.last()) {
        elements_of(nodes.drop_last()).push(element_of(nodes.last()))
    } else {
        elements_of(nodes.drop_last())
    }
}

/// The text of the nodes: of a text node its own, of an element that
/// element's.
pub open spec fn loose_text(nodes: Seq<DomView>) -> Seq<char>
    decreases nodes,
{
    if nodes.len() == 0 {
        Seq::empty()
    } else {
        loose_text(nodes.drop_last()) + match nodes.last().data {
            DomDataView::Text(text) => text,
            DomDataView::Element { .. } => element_of(nodes.last()).text,
            DomDataView::Document => element_of(nodes.last()).text,
            _ => Seq::empty(),
        }
    }
}

/// All text below a node, as it stands.
pub open spec fn text_below(node: DomView) -> Seq<char>
    decreases node,
{
    match node.data {
        DomDataView::Text(text) => text,
        _ => text_below_all(node.children),
    }
}

pub open spec fn text_below_all(nodes: Seq<DomView>) -> Seq<char>
    decreases nodes,
{
    if nodes.len() == 0 {
        Seq::empty()
    } else {
        text_below_all(nodes.drop_last()) + text_below(nodes.last())
    }
}

pub open spec fn is_title(node: DomView) -> bool {
    node.data matches DomDataView::Element { tag, .. } && tag == "title"@
}

/// The text of the first `<title>` with any, normalized.
pub open spec fn title_of(node: DomView) -> Option<Seq<char>>
    decreases node,
{
    let own = normalized(text_below(node));
    if is_title(node) && own.len() > 0 {
        Some(own)
    } else {
        title_of_any(node.children)
    }
}

pub open spec fn title_of_any(nodes: Seq<DomView>) -> Option<Seq<char>>
    decreases nodes,
{
    if nodes.len() == 0 {
        None
    } else {
        match title_of_any(nodes.drop_last()) {
            Some(title) => Some(title),
            None => title_of(nodes.last()),
        }
    }
}

/// The node and all nodes below it, in document order.
pub open spec fn dom_preorder(node: DomView) -> Seq<DomView>
    decreases node,
{
    seq![node] + dom_preorder_all(node.children)
}

pub open spec fn dom_preorder_all(nodes: Seq<DomView>) -> Seq<DomView>
    decreases nodes,
{
    if nodes.len() == 0 {
        Seq::empty()
    } else {
        dom_preorder_all(nodes.drop_last()) + dom_preorder(nodes.last())
    }
}

/// The link that a node is: the `href` of an `<a>`.
pub open spec fn link_of(node: DomView) -> Seq<Seq<char>> {
    match attr_of(node, "href"@) {
        Some(href) if tag_of(node) == "a"@ && node.data is Element => seq![href],
        _ => Seq::empty(),
    }
}

pub open spec fn links_of(node: DomView) -> Seq<Seq<char>> {
    gather(dom_preorder(node), |n: DomView| link_of(n))
}

/// The key of a `<meta>`: its `name`, or else its `property`.
pub open spec fn meta_key(node: DomView) -> Option<Seq<char>> {
    match attr_of(node, "name"@) {
        Some(name) => Some(name),
        None => attr_of(node, "property"@),
    }
}

/// The pair that a node adds to a page's `meta`.
pub open spec fn meta_of(node: DomView) -> Seq<(Seq<char>, Seq<char>)> {
    match (meta_key(node), attr_of(node, "content"@)) {
        (Some(key), Some(content)) if tag_of(node) == "meta"@ && node.data is Element => seq![
            (key, content),
        ],
        _ => Seq::empty(),
    }
}

pub open spec fn metas_of(node: DomView) -> Seq<(Seq<char>, Seq<char>)> {
    gather(dom_preorder(node), |n: DomView| meta_of(n))
}

pub open spec fn head_test() -> spec_fn(DomView) -> bool {
    |n: DomView| n.data is Element && tag_of(n) == "head"@
}

/// The pairs in the `<head>` of a document.
pub open spec fn head_metas(document: DomView) -> Seq<(Seq<char>, Seq<char>)> {
    let nodes = dom_preorder(document);
    let at = first_where(nodes, head_test());
    if at < nodes.len() {
        metas_of(nodes[at])
    } else {
        Seq::empty()
    }
}

/// The page that a document is.
pub open spec fn page_of(document: DomView, source: Seq<char>) -> PageView {
    PageView {
        url: None,
        title: title_of(document),
        text: normalized(element_of(document).text),
        links: links_of(document),
        root: element_of(document),
        meta: head_metas(document),
        cookies: Seq::empty(),
        source: Some(source),
    }
}

fn attribute(data: &DomData, name: &str) -> (value: Option<String>)
    ensures
        value.deep_view() == match data.deep_view() {
            DomDataView::Element { attrs, .. } => lookup(attrs, name@),
            _ => None,
        },
{
    match data {
        DomData::Element { attrs, .. } => match meta_lookup(attrs, name) {
            Some(value) => Some(value.to_owned()),
            None => None,
        },
        _ => None,
    }
}

fn tag_text(data: &DomData) -> (tag: String)
    ensures
        tag@ == match data.deep_view() {
            DomDataView::Element { tag, .. } => tag,
            DomDataView::Document => "document"@,
            _ => "text"@,
        },
{
    match data {
        DomData::Element { tag, .. } => tag.clone(),
        DomData::Document => "document".to_owned(),
        _ => "text".to_owned(),
    }
}

/// Builds the element that a node becomes.
pub fn element_from_node(node: &DomNode) -> (element: Element)
    ensures
        element.deep_view() == element_of(node.deep_view()),
    decreases node,
{
    proof {
        lemma_dom_children(node);
    }
    let ghost model = node.deep_view();
    let tag = tag_text(&node.data);
    let opaque = same_text(tag.as_str(), "head") || same_text(tag.as_str(), "script") || same_text(
        tag.as_str(),
        "style",
    );
    let mut loose = String::new();
    let mut children: Vec<Element> = Vec::new();
    if !opaque {
        assert(model.children.take(0) =~= Seq::empty());
        for i in 0..node.children.len()
            invariant
                model == node.deep_view(),
                model.children == node.children.deep_view(),
                loose@ == loose_text(model.children.take(i as int)),
                children.deep_view() == elements_of(model.children.take(i as int)),
        {
            let ghost seen = model.children.take(i as int);
            let ghost now = model.children.take(i + 1);
            let ghost text0 = loose@;
            let ghost children0 = children.deep_view();
            proof {
                assert(now.drop_last() =~= seen);
                assert(now.last() == node.children@[i as int].deep_view());
            }
            let child = &node.children[i];
            match &child.data {
                DomData::Text(text) => {
                    loose.append(text.as_str());
                },
                DomData::Element { .. } | DomData::Document => {
                    let element = element_from_node(child);
                    loose.append(element.text.as_str());
                    children.push(element);
                    assert(children.deep_view() =~= children0.push(element_of(now.last())));
                },
                _ => {
                    assert(text0 + Seq::<char>::empty() =~= text0);
                },
            }
        }
        assert(model.children.take(model.children.len() as int) =~= model.children);
    }
    let text = normalize_text(loose.as_str());
    proof {
        if opaque {
            assert(crate::text::words(loose@) =~= Seq::empty());
            assert(text@ =~= Seq::empty());
            assert(children.deep_view() =~= Seq::empty());
        }
    }
    let href = if same_text(tag.as_str(), "form") {
        attribute(&node.data, "action")
    } else if same_text(tag.as_str(), "a") {
        attribute(&node.data, "href")
    } else {
        None
    };
    let value = match attribute(&node.data, "value") {
        Some(value) => Some(value),
        None => if same_text(tag.as_str(), "textarea") {
            Some(text.clone())
        } else {
            None
        },
    };
    let element = Element {
        href,
        layout: None,
        value,
        name: attribute(&node.data, "name"),
        kind: attribute(&node.data, "type"),
        tool_name: attribute(&node.data, "toolname"),
        tool_description: attribute(&node.data, "tooldescription"),
        tool_autosubmit: attribute(&node.data, "toolautosubmit").is_some(),
        tool_param_description: attribute(&node.data, "toolparamdescription"),
        required: attribute(&node.data, "required").is_some(),
        method: attribute(&node.data, "method"),
        alt: attribute(&node.data, "alt"),
        lang: attribute(&node.data, "lang"),
        tag,
        text,
        children,
    };
    proof {
        lemma_children(&element);
    }
    element
}

fn collect_text(node: &DomNode, output: &mut String)
    ensures
        final(output)@ == old(output)@ + text_below(node.deep_view()),
    decreases node,
{
    proof {
        lemma_dom_children(node);
    }
    let ghost model = node.deep_view();
    let ghost before = output@;
    match &node.data {
        DomData::Text(text) => {
            output.append(text.as_str());
        },
        _ => {
            proof {
                assert(model.children.take(0) =~= Seq::empty());
                assert(before + text_below_all(model.children.take(0)) =~= before);
            }
            for i in 0..node.children.len()
                invariant
                    model.children == node.children.deep_view(),
                    output@ == before + text_below_all(model.children.take(i as int)),
            {
                collect_text(&node.children[i], output);
                proof {
                    let now = model.children.take(i + 1);
                    assert(now.drop_last() =~= model.children.take(i as int));
                    assert(now.last() == node.children@[i as int].deep_view());
                    assert(output@ =~= before + text_below_all(now));
                }
            }
            assert(model.children.take(model.children.len() as int) =~= model.children);
        },
    }
}

/// Finds the text of the first `<title>` with any.
pub fn find_title(node: &DomNode) -> (title: Option<String>)
    ensures
        title.deep_view() == title_of(node.deep_view()),
    decreases node,
{
    proof {
        lemma_dom_children(node);
    }
    let ghost model = node.deep_view();
    if let DomData::Element { tag, .. } = &node.data {
        if same_text(tag.as_str(), "title") {
            let mut value = String::new();
            collect_text(node, &mut value);
            assert(value@ =~= text_below(model));
            let value = normalize_text(value.as_str());
            if !value.as_str().is_empty() {
                return Some(value);
            }
        }
    }
    assert(model.children.take(0) =~= Seq::empty());
    for i in 0..node.children.len()
        invariant
            model == node.deep_view(),
            model.children == node.children.deep_view(),
            title_of_any(model.children.take(i as int)) is None,
            title_of(model) == title_of_any(model.children),
    {
        let found = find_title(&node.children[i]);
        proof {
            let now = model.children.take(i + 1);
            assert(now.drop_last() =~= model.children.take(i as int));
            assert(now.last() == node.children@[i as int].deep_view());
        }
        if found.is_some() {
            proof {
                lemma_title_of_any_stays(model.children, i + 1);
            }
            return found;
        }
    }
    assert(model.children.take(model.children.len() as int) =~= model.children);
    None
}

proof fn lemma_title_of_any_stays(nodes: Seq<DomView>, n: int)
    requires
        0 <= n <= nodes.len(),
        title_of_any(nodes.take(n)) is Some,
    ensures
        title_of_any(nodes) == title_of_any(nodes.take(n)),
    decreases nodes.len(),
{
    if n == nodes.len() {
        assert(nodes.take(n) =~= nodes);
    } else {
        assert(nodes.drop_last().take(n) =~= nodes.take(n));
        lemma_title_of_any_stays(nodes.drop_last(), n);
    }
}

/// Adds the node and all nodes below it to `nodes`, in document order.
fn list_nodes<'a>(node: &'a DomNode, nodes: &mut Vec<&'a DomNode>)
    ensures
        final(nodes).deep_view() == old(nodes).deep_view() + dom_preorder(node.deep_view()),
    decreases node,
{
    proof {
        lemma_dom_children(node);
    }
    let ghost model = node.deep_view();
    let ghost before = nodes.deep_view();
    nodes.push(node);
    proof {
        assert(model.children.take(0) =~= Seq::empty());
        assert(nodes.deep_view() =~= before + (seq![model] + dom_preorder_all(
            model.children.take(0),
        )));
    }
    for i in 0..node.children.len()
        invariant
            model.children == node.children.deep_view(),
            nodes.deep_view() == before + (seq![model] + dom_preorder_all(
                model.children.take(i as int),
            )),
    {
        list_nodes(&node.children[i], nodes);
        proof {
            let now = model.children.take(i + 1);
            assert(now.drop_last() =~= model.children.take(i as int));
            assert(now.last() == node.children@[i as int].deep_view());
            assert(nodes.deep_view() =~= before + (seq![model] + dom_preorder_all(now)));
        }
    }
    assert(model.children.take(model.children.len() as int) =~= model.children);
}

fn collect_links(node: &DomNode) -> (links: Vec<String>)
    ensures
        links.deep_view() == links_of(node.deep_view()),
{
    let mut nodes: Vec<&DomNode> = Vec::new();
    list_nodes(node, &mut nodes);
    let ghost f = |n: DomView| link_of(n);
    let ghost listed = nodes.deep_view();
    assert(listed =~= dom_preorder(node.deep_view()));
    let mut links: Vec<String> = Vec::new();
    assert(listed.take(0) =~= Seq::empty());
    assert(links.deep_view() =~= gather(listed.take(0), f));
    for i in 0..nodes.len()
        invariant
            listed == nodes.deep_view(),
            f == (|n: DomView| link_of(n)),
            links.deep_view() == gather(listed.take(i as int), f),
    {
        let ghost held = links.deep_view();
        let ghost n = nodes@[i as int].deep_view();
        proof {
            assert(listed.take(i + 1) =~= listed.take(i as int).push(n));
            lemma_gather_push(listed.take(i as int), n, f);
        }
        match &nodes[i].data {
            DomData::Element { tag, attrs } => {
                if same_text(tag.as_str(), "a") {
                    match meta_lookup(attrs, "href") {
                        Some(href) => {
                            let link = href.to_owned();
                            links.push(link);
                            assert(links.deep_view() =~= held + f(n));
                        },
                        None => {},
                    }
                }
            },
            _ => {},
        }
        assert(links.deep_view() =~= held + f(n));
    }
    assert(listed.take(listed.len() as int) =~= listed);
    links
}

fn collect_meta(node: &DomNode) -> (meta: Vec<(String, String)>)
    ensures
        meta.deep_view() == metas_of(node.deep_view()),
{
    let mut nodes: Vec<&DomNode> = Vec::new();
    list_nodes(node, &mut nodes);
    let ghost f = |n: DomView| meta_of(n);
    let ghost listed = nodes.deep_view();
    assert(listed =~= dom_preorder(node.deep_view()));
    let mut meta: Vec<(String, String)> = Vec::new();
    assert(listed.take(0) =~= Seq::empty());
    assert(meta.deep_view() =~= gather(listed.take(0), f));
    for i in 0..nodes.len()
        invariant
            listed == nodes.deep_view(),
            f == (|n: DomView| meta_of(n)),
            meta.deep_view() == gather(listed.take(i as int), f),
    {
        let ghost held = meta.deep_view();
        let ghost n = nodes@[i as int].deep_view();
        proof {
            assert(listed.take(i + 1) =~= listed.take(i as int).push(n));
            lemma_gather_push(listed.take(i as int), n, f);
        }
        match &nodes[i].data {
            DomData::Element { tag, attrs } => {
                if same_text(tag.as_str(), "meta") {
                    let key = match meta_lookup(attrs, "name") {
                        Some(name) => Some(name),
                        None => meta_lookup(attrs, "property"),
                    };
                    match (key, meta_lookup(attrs, "content")) {
                        (Some(key), Some(content)) => {
                            let pair = (key.to_owned(), content.to_owned());
                            meta.push(pair);
                            assert(pair.deep_view() == (key@, content@));
                            assert(meta.deep_view() =~= held + f(n));
                        },
                        _ => {},
                    }
                }
            },
            _ => {},
        }
        assert(meta.deep_view() =~= held + f(n));
    }
    assert(listed.take(listed.len() as int) =~= listed);
    meta
}

fn collect_head_meta(document: &DomNode) -> (meta: Vec<(String, String)>)
    ensures
        meta.deep_view() == head_metas(document.deep_view()),
{
    let mut nodes: Vec<&DomNode> = Vec::new();
    list_nodes(document, &mut nodes);
    let ghost listed = nodes.deep_view();
    assert(listed =~= dom_preorder(document.deep_view()));
    let ghost test = head_test();
    for i in 0..nodes.len()
        invariant
            listed == nodes.deep_view(),
            listed == dom_preorder(document.deep_view()),
            test == head_test(),
            forall|k: int| 0 <= k < i ==> !test(#[trigger] listed[k]),
    {
        assert(listed[i as int] == nodes@[i as int].deep_view());
        if let DomData::Element { tag, .. } = &nodes[i].data {
            if same_text(tag.as_str(), "head") {
                proof {
                    lemma_first_where_is(listed, test, i as int);
                }
                return collect_meta(nodes[i]);
            }
        }
    }
    proof {
        lemma_first_where_is(listed, test, listed.len() as int);
    }
    let meta = Vec::new();
    assert(meta.deep_view() =~= Seq::empty());
    meta
}

/// Builds the page that a parsed document is.
pub fn page_from_document(document: &DomNode, source: &str) -> (page: Page)
    ensures
        page.deep_view() == page_of(document.deep_view(), source@),
{
    let root = element_from_node(document);
    let title = find_title(document);
    let links = collect_links(document);
    let meta = collect_head_meta(document);
    let text = normalize_text(root.text.as_str());
    let cookies = Vec::new();
    assert(cookies.deep_view() =~= Seq::empty());
    Page { url: None, title, text, links, root, meta, cookies, source: Some(source.to_owned()) }
}

/// Parses an HTML document.
pub fn parse_html(source: &str) -> (page: Page)
    requires
        fits_parser(source@),
    ensures
        page.deep_view() == page_of(html_document(source@), source@),
        page.deep_view().root.tag == "document"@,
{
    let document = parse_dom(source);
    page_from_document(&document, source)
}

/// The text of a page is the text of its root.
pub proof fn law_page_text_is_root_text(document: DomView, source: Seq<char>)
    ensures
        page_of(document, source).text == page_of(document, source).root.text,
{
    if opaque_tag(tag_of(document)) {
        assert(crate::text::words(Seq::<char>::empty()) =~= Seq::empty());
        assert(normalized(Seq::empty()) =~= Seq::<char>::empty());
    } else {
        law_normalizing_twice(loose_text(document.children));
    }
}

proof fn lemma_loose_text(nodes: Seq<DomView>, pieces: Seq<Seq<char>>)
    requires
        pieces.len() == nodes.len(),
        forall|k: int|
            0 <= k < nodes.len() ==> match (#[trigger] nodes[k]).data {
                DomDataView::Text(text) => pieces[k] == text,
                DomDataView::Element { .. } => pieces[k] == element_of(nodes[k]).text,
                DomDataView::Document => pieces[k] == element_of(nodes[k]).text,
                _ => pieces[k].len() == 0,
            },
    ensures
        loose_text(nodes) == concat(pieces),
    decreases nodes.len(),
{
    if nodes.len() > 0 {
        let head = nodes.drop_last();
        assert forall|k: int| 0 <= k < head.len() implies match (#[trigger] head[k]).data {
            DomDataView::Text(text) => pieces.drop_last()[k] == text,
            DomDataView::Element { .. } => pieces.drop_last()[k] == element_of(head[k]).text,
            DomDataView::Document => pieces.drop_last()[k] == element_of(head[k]).text,
            _ => pieces.drop_last()[k].len() == 0,
        } by {
            assert(head[k] == nodes[k]);
        }
        lemma_loose_text(head, pieces.drop_last());
        assert(nodes[nodes.len() - 1] == nodes.last());
        assert(loose_text(nodes) =~= concat(pieces));
    }
}

/// The text of an element is, normalized, what its child nodes say one after
/// another: a text node all that it holds, white space and all, an element
/// its own text, and any other node nothing. Only `<head>`, `<script>` and
/// `<style>` have no text.
pub proof fn law_text_is_what_the_child_nodes_say(node: DomView, pieces: Seq<Seq<char>>)
    requires
        pieces.len() == node.children.len(),
        forall|k: int|
            0 <= k < node.children.len() ==> match (#[trigger] node.children[k]).data {
                DomDataView::Text(text) => pieces[k] == text,
                DomDataView::Element { .. } => pieces[k] == element_of(node.children[k]).text,
                DomDataView::Document => pieces[k] == element_of(node.children[k]).text,
                _ => pieces[k].len() == 0,
            },
    ensures
        node.data is Document ==> element_of(node).text == normalized(concat(pieces)),
        node.data matches DomDataView::Element { tag, .. } ==> element_of(node).text == if tag
            == "head"@ || tag == "script"@ || tag == "style"@ {
            Seq::empty()
        } else {
            normalized(concat(pieces))
        },
{
    reveal_strlit("document");
    reveal_strlit("head");
    reveal_strlit("script");
    reveal_strlit("style");
    assert("document"@.len() == 8 && "head"@.len() == 4 && "script"@.len() == 6 && "style"@.len()
        == 5);
    lemma_loose_text(node.children, pieces);
}

proof fn lemma_loose_text_add(a: Seq<DomView>, b: Seq<DomView>)
    ensures
        loose_text(a + b) == loose_text(a) + loose_text(b),
    decreases b.len(),
{
    if b.len() == 0 {
        assert(a + b =~= a);
        assert(loose_text(a) + loose_text(b) =~= loose_text(a));
    } else {
        lemma_loose_text_add(a, b.drop_last());
        assert((a + b).drop_last() =~= a + b.drop_last());
        assert((a + b).last() == b.last());
        assert(loose_text(a + b) =~= loose_text(a) + loose_text(b));
    }
}

/// White space between two child nodes keeps their words apart: with a text
/// node that begins with white space between them, the words of an element
/// are those of the same element with only what stands before, and then
/// those of the same element with only the rest.
pub proof fn law_white_space_keeps_words_apart(
    data: DomDataView,
    before: Seq<DomView>,
    space: char,
    rest: Seq<char>,
    behind: Seq<DomView>,
)
    requires
        data is Document || data is Element,
        data matches DomDataView::Element { tag, .. } ==> tag != "head"@ && tag != "script"@ && tag
            != "style"@,
        white_space(space),
    ensures
        ({
            let text = |children: Seq<DomView>| element_of(DomView { data, children }).text;
            let node = |t: Seq<char>|
                DomView { data: DomDataView::Text(t), children: Seq::empty() };
            words(text(before + seq![node(seq![space] + rest)] + behind)) == words(text(before))
                + words(text(seq![node(rest)] + behind))
        }),
{
    reveal_strlit("document");
    reveal_strlit("head");
    reveal_strlit("script");
    reveal_strlit("style");
    assert("document"@.len() == 8 && "head"@.len() == 4 && "script"@.len() == 6 && "style"@.len()
        == 5);
    let full = seq![DomView { data: DomDataView::Text(seq![space] + rest), children: Seq::empty() }];
    let short = seq![DomView { data: DomDataView::Text(rest), children: Seq::empty() }];
    lemma_loose_text_add(before + full, behind);
    lemma_loose_text_add(before, full);
    lemma_loose_text_add(short, behind);
    assert(full.drop_last() =~= Seq::empty());
    assert(short.drop_last() =~= Seq::empty());
    assert(loose_text(Seq::<DomView>::empty()) =~= Seq::empty());
    assert(full.last().data == DomDataView::Text(seq![space] + rest));
    assert(loose_text(full) =~= seq![space] + rest);
    assert(loose_text(short) =~= rest);
    let a = loose_text(before);
    let b = rest + loose_text(behind);
    assert(loose_text(before + full + behind) =~= a + seq![space] + b);
    law_white_space_parts_words(a, space, b);
    law_normalizing_keeps_the_words(a + seq![space] + b);
    law_normalizing_keeps_the_words(a);
    law_normalizing_keeps_the_words(b);
}

proof fn lemma_elements_of(nodes: Seq<DomView>)
    ensures
        elements_of(nodes) == gather(
            nodes,
            |n: DomView|
                if n.data is Element || n.data is Document {
                    seq![element_of(n)]
                } else {
                    Seq::<ElementView>::empty()
                },
        ),
    decreases nodes.len(),
{
    if nodes.len() > 0 {
        lemma_elements_of(nodes.drop_last());
    }
    assert(elements_of(nodes) =~= gather(
        nodes,
        |n: DomView|
            if n.data is Element || n.data is Document {
                seq![element_of(n)]
            } else {
                Seq::<ElementView>::empty()
            },
    ));
}

/// The children of an element are what its child elements become, each in
/// its place, and no other node becomes one. Only `<head>`, `<script>` and
/// `<style>` have none.
pub proof fn law_children_are_the_child_elements(node: DomView)
    requires
        node.data is Document || node.data is Element,
    ensures
        node.data matches DomDataView::Element { tag, .. } && (tag == "head"@ || tag == "script"@
            || tag == "style"@) ==> element_of(node).children.len() == 0,
        node.data is Document || (node.data matches DomDataView::Element { tag, .. } && tag
            != "head"@ && tag != "script"@ && tag != "style"@) ==> lists(
            element_of(node).children,
            node.children,
            |n: DomView| n.data is Element || n.data is Document,
            |n: DomView| element_of(n),
        ),
{
    reveal_strlit("document");
    reveal_strlit("head");
    reveal_strlit("script");
    reveal_strlit("style");
    assert("document"@.len() == 8 && "head"@.len() == 4 && "script"@.len() == 6 && "style"@.len()
        == 5);
    lemma_elements_of(node.children);
    lemma_gather_lists(
        node.children,
        |n: DomView|
            if n.data is Element || n.data is Document {
                seq![element_of(n)]
            } else {
                Seq::<ElementView>::empty()
            },
        |n: DomView| n.data is Element || n.data is Document,
        |n: DomView| element_of(n),
    );
}

/// An element keeps its tag and each attribute that counts, the first where
/// there are several of a name: its value, letter by letter. A box it gets
/// only when it is laid out.
pub proof fn law_attributes_are_kept(node: DomView, tag: Seq<char>, i: int)
    requires
        node.data matches DomDataView::Element { tag: own, attrs } && own == tag && 0 <= i
            < attrs.len() && forall|j: int| 0 <= j < i ==> (#[trigger] attrs[j]).0 != attrs[i].0,
    ensures
        ({
            let e = element_of(node);
            let (name, value) = node.data->attrs[i];
            &&& e.tag == tag
            &&& e.layout is None
            &&& name == "name"@ ==> e.name == Some(value)
            &&& name == "value"@ ==> e.value == Some(value)
            &&& name == "type"@ ==> e.kind == Some(value)
            &&& name == "method"@ ==> e.method == Some(value)
            &&& name == "alt"@ ==> e.alt == Some(value)
            &&& name == "lang"@ ==> e.lang == Some(value)
            &&& name == "toolname"@ ==> e.tool_name == Some(value)
            &&& name == "tooldescription"@ ==> e.tool_description == Some(value)
            &&& name == "toolparamdescription"@ ==> e.tool_param_description == Some(value)
            &&& name == "toolautosubmit"@ ==> e.tool_autosubmit
            &&& name == "required"@ ==> e.required
            &&& name == "href"@ && tag == "a"@ ==> e.href == Some(value)
            &&& name == "action"@ && tag == "form"@ ==> e.href == Some(value)
        }),
{
    let attrs = node.data->attrs;
    lemma_first_where_is(attrs, key_test(attrs[i].0), i);
    reveal_strlit("a");
    reveal_strlit("form");
    assert("a"@.len() == 1 && "form"@.len() == 4);
}

/// An element has no attribute of its own: without one on its node there is
/// none. A `<textarea>` has its text for a value, where it has no other.
pub proof fn law_no_attribute_is_made_up(node: DomView, name: Seq<char>)
    requires
        node.data matches DomDataView::Element { attrs, .. } ==> forall|j: int|
            0 <= j < attrs.len() ==> (#[trigger] attrs[j]).0 != name,
    ensures
        ({
            let e = element_of(node);
            &&& name == "name"@ ==> e.name is None
            &&& name == "value"@ && e.tag != "textarea"@ ==> e.value is None
            &&& name == "value"@ && e.tag == "textarea"@ ==> e.value == Some(e.text)
            &&& name == "type"@ ==> e.kind is None
            &&& name == "method"@ ==> e.method is None
            &&& name == "alt"@ ==> e.alt is None
            &&& name == "lang"@ ==> e.lang is None
            &&& name == "toolname"@ ==> e.tool_name is None
            &&& name == "tooldescription"@ ==> e.tool_description is None
            &&& name == "toolparamdescription"@ ==> e.tool_param_description is None
            &&& name == "toolautosubmit"@ ==> !e.tool_autosubmit
            &&& name == "required"@ ==> !e.required
            &&& name == "href"@ && e.tag == "a"@ ==> e.href is None
            &&& name == "action"@ && e.tag == "form"@ ==> e.href is None
            &&& e.tag != "a"@ && e.tag != "form"@ ==> e.href is None
        }),
{
    reveal_strlit("a");
    reveal_strlit("form");
    assert("a"@.len() == 1 && "form"@.len() == 4);
    if let DomDataView::Element { attrs, .. } = node.data {
        lemma_first_where_is(attrs, key_test(name), attrs.len() as int);
    }
}

/// The links of a page are the addresses of its `<a>` elements, in document
/// order, wherever they stand; the `meta` of a node are the pairs of the
/// `<meta>` elements in it that have both a key and a content.
pub proof fn law_links_are_those_of_the_anchors(node: DomView, source: Seq<char>)
    ensures
        lists(
            page_of(node, source).links,
            dom_preorder(node),
            |n: DomView|
                n.data matches DomDataView::Element { tag, attrs } && tag == "a"@ && lookup(
                    attrs,
                    "href"@,
                ) is Some,
            |n: DomView| lookup(n.data->attrs, "href"@)->0,
        ),
        lists(
            metas_of(node),
            dom_preorder(node),
            |n: DomView|
                n.data matches DomDataView::Element { tag, attrs } && tag == "meta"@ && lookup(
                    attrs,
                    "content"@,
                ) is Some && (lookup(attrs, "name"@) is Some || lookup(attrs, "property"@) is Some),
            |n: DomView|
                (
                    match lookup(n.data->attrs, "name"@) {
                        Some(name) => name,
                        None => lookup(n.data->attrs, "property"@)->0,
                    },
                    lookup(n.data->attrs, "content"@)->0,
                ),
        ),
{
    lemma_gather_lists(
        dom_preorder(node),
        |n: DomView| link_of(n),
        |n: DomView|
            n.data matches DomDataView::Element { tag, attrs } && tag == "a"@ && lookup(
                attrs,
                "href"@,
            ) is Some,
        |n: DomView| lookup(n.data->attrs, "href"@)->0,
    );
    lemma_gather_lists(
        dom_preorder(node),
        |n: DomView| meta_of(n),
        |n: DomView|
            n.data matches DomDataView::Element { tag, attrs } && tag == "meta"@ && lookup(
                attrs,
                "content"@,
            ) is Some && (lookup(attrs, "name"@) is Some || lookup(attrs, "property"@) is Some),
        |n: DomView|
            (
                match lookup(n.data->attrs, "name"@) {
                    Some(name) => name,
                    None => lookup(n.data->attrs, "property"@)->0,
                },
                lookup(n.data->attrs, "content"@)->0,
            ),
    );
}

/// The `meta` of a page are those of its first `<head>`, and none where it
/// has no `<head>`.
pub proof fn law_meta_is_that_of_the_head(document: DomView, source: Seq<char>, at: int)
    requires
        0 <= at <= dom_preorder(document).len(),
        forall|k: int|
            0 <= k < at ==> !((#[trigger] dom_preorder(document)[k]).data matches DomDataView::Element {
                tag,
                ..
            } && tag == "head"@),
        at < dom_preorder(document).len() ==> (dom_preorder(document)[at].data matches DomDataView::Element {
            tag,
            ..
        } && tag == "head"@),
    ensures
        at < dom_preorder(document).len() ==> page_of(document, source).meta == metas_of(
            dom_preorder(document)[at],
        ),
        at == dom_preorder(document).len() ==> page_of(document, source).meta.len() == 0,
{
    lemma_first_where_is(dom_preorder(document), head_test(), at);
}

proof fn lemma_title(node: DomView, at: int)
    requires
        0 <= at <= dom_preorder(node).len(),
        forall|k: int|
            0 <= k < at ==> !is_title(#[trigger] dom_preorder(node)[k]) || normalized(
                text_below(dom_preorder(node)[k]),
            ).len() == 0,
        at < dom_preorder(node).len() ==> is_title(dom_preorder(node)[at]) && normalized(
            text_below(dom_preorder(node)[at]),
        ).len() > 0,
    ensures
        title_of(node) == if at < dom_preorder(node).len() {
            Some(normalized(text_below(dom_preorder(node)[at])))
        } else {
            None
        },
    decreases node,
{
    let below = dom_preorder_all(node.children);
    assert(dom_preorder(node)[0] == node);
    if at > 0 {
        assert forall|k: int| 0 <= k < at - 1 implies !is_title(#[trigger] below[k]) || normalized(
            text_below(below[k]),
        ).len() == 0 by {
            assert(below[k] == dom_preorder(node)[k + 1]);
        }
        if at < dom_preorder(node).len() {
            assert(below[at - 1] == dom_preorder(node)[at]);
        }
        lemma_title_any(node.children, at - 1);
    }
}

proof fn lemma_title_any(nodes: Seq<DomView>, at: int)
    requires
        0 <= at <= dom_preorder_all(nodes).len(),
        forall|k: int|
            0 <= k < at ==> !is_title(#[trigger] dom_preorder_all(nodes)[k]) || normalized(
                text_below(dom_preorder_all(nodes)[k]),
            ).len() == 0,
        at < dom_preorder_all(nodes).len() ==> is_title(dom_preorder_all(nodes)[at]) && normalized(
            text_below(dom_preorder_all(nodes)[at]),
        ).len() > 0,
    ensures
        title_of_any(nodes) == if at < dom_preorder_all(nodes).len() {
            Some(normalized(text_below(dom_preorder_all(nodes)[at])))
        } else {
            None
        },
    decreases nodes,
{
    if nodes.len() > 0 {
        let all = dom_preorder_all(nodes);
        let head = dom_preorder_all(nodes.drop_last());
        let last = dom_preorder(nodes.last());
        let first = if at < head.len() {
            at
        } else {
            head.len() as int
        };
        assert forall|k: int| 0 <= k < first implies !is_title(#[trigger] head[k]) || normalized(
            text_below(head[k]),
        ).len() == 0 by {
            assert(head[k] == all[k]);
        }
        if at < head.len() {
            assert(head[at] == all[at]);
        }
        lemma_title_any(nodes.drop_last(), first);
        if at >= head.len() {
            let own = at - head.len();
            assert forall|k: int| 0 <= k < own implies !is_title(#[trigger] last[k])
                || normalized(text_below(last[k])).len() == 0 by {
                assert(last[k] == all[head.len() + k]);
            }
            if own < last.len() {
                assert(last[own] == all[at]);
            }
            lemma_title(nodes.last(), own);
        }
    }
}

/// The title of a page is the text, normalized, of the first `<title>` in
/// document order that has any; without such a one the page has no title.
pub proof fn law_title_is_the_first_with_text(document: DomView, source: Seq<char>, at: int)
    requires
        0 <= at <= dom_preorder(document).len(),
        forall|k: int|
            0 <= k < at ==> ((#[trigger] dom_preorder(document)[k]).data matches DomDataView::Element {
                tag,
                ..
            } && tag == "title"@) ==> words(text_below(dom_preorder(document)[k])).len() == 0,
        at < dom_preorder(document).len() ==> (dom_preorder(document)[at].data matches DomDataView::Element {
            tag,
            ..
        } && tag == "title"@) && words(text_below(dom_preorder(document)[at])).len() > 0,
    ensures
        at < dom_preorder(document).len() ==> page_of(document, source).title == Some(
            normalized(text_below(dom_preorder(document)[at])),
        ),
        at == dom_preorder(document).len() ==> page_of(document, source).title is None,
{
    assert forall|k: int| 0 <= k < dom_preorder(document).len() implies (normalized(
        text_below(#[trigger] dom_preorder(document)[k]),
    ).len() > 0 <==> words(text_below(dom_preorder(document)[k])).len() > 0) by {
        lemma_normalized_empty(text_below(dom_preorder(document)[k]));
    }
    lemma_title(document, at);
}

/// All text below a node is that of its text nodes, one after another.
pub proof fn law_text_below_is_that_of_the_text_nodes(node: DomView, pieces: Seq<Seq<char>>)
    requires
        !(node.data is Text),
        pieces.len() == node.children.len(),
        forall|k: int|
            0 <= k < node.children.len() ==> match (#[trigger] node.children[k]).data {
                DomDataView::Text(text) => pieces[k] == text,
                _ => pieces[k] == text_below(node.children[k]),
            },
    ensures
        text_below(node) == concat(pieces),
{
    lemma_text_below_all(node.children, pieces);
}

proof fn lemma_text_below_all(nodes: Seq<DomView>, pieces: Seq<Seq<char>>)
    requires
        pieces.len() == nodes.len(),
        forall|k: int|
            0 <= k < nodes.len() ==> match (#[trigger] nodes[k]).data {
                DomDataView::Text(text) => pieces[k] == text,
                _ => pieces[k] == text_below(nodes[k]),
            },
    ensures
        text_below_all(nodes) == concat(pieces),
    decreases nodes.len(),
{
    if nodes.len() > 0 {
        let head = nodes.drop_last();
        assert forall|k: int| 0 <= k < head.len() implies match (#[trigger] head[k]).data {
            DomDataView::Text(text) => pieces.drop_last()[k] == text,
            _ => pieces.drop_last()[k] == text_below(head[k]),
        } by {
            assert(head[k] == nodes[k]);
        }
        lemma_text_below_all(head, pieces.drop_last());
        assert(nodes[nodes.len() - 1] == nodes.last());
    }
}

/// A document becomes a page with the element that it becomes for a root, and
/// with its source; it has no address and no cookies yet.
pub proof fn law_page_keeps_the_source(document: DomView, source: Seq<char>)
    ensures
        page_of(document, source).root == element_of(document),
        page_of(document, source).source == Some(source),
        page_of(document, source).url is None,
        page_of(document, source).cookies.len() == 0,
        document.data is Document ==> page_of(document, source).root.tag == "document"@,
{
}

/// The nodes of a document come in document order: a node, then its first
/// child with all below it, then the next.
pub proof fn law_nodes_come_in_document_order(node: DomView, k: int)
    requires
        0 <= k < node.children.len(),
    ensures
        dom_preorder(node)[0] == node,
        ({
            let before = dom_preorder_all(node.children.take(k)).len() as int;
            let own = dom_preorder(node.children[k]);
            &&& before + own.len() < dom_preorder(node).len()
            &&& dom_preorder(node).subrange(1 + before, 1 + before + own.len()) == own
        }),
        dom_preorder_all(node.children.take(0)).len() == 0,
        dom_preorder_all(node.children.take(k + 1)).len() == dom_preorder_all(
            node.children.take(k),
        ).len() + dom_preorder(node.children[k]).len(),
        dom_preorder(node).len() == 1 + dom_preorder_all(
            node.children.take(node.children.len() as int),
        ).len(),
{
    let s = node.children;
    assert(s.take(0) =~= Seq::empty());
    assert(s.take(s.len() as int) =~= s);
    assert(s.take(k + 1).drop_last() =~= s.take(k));
    assert(s.take(k + 1).last() == s[k]);
    lemma_child_nodes(s, k);
    let before = dom_preorder_all(s.take(k)).len() as int;
    let own = dom_preorder(s[k]);
    assert(dom_preorder(node).subrange(1 + before, 1 + before + own.len()) =~= dom_preorder_all(
        s,
    ).subrange(before, before + own.len()));
}

proof fn lemma_child_nodes(s: Seq<DomView>, k: int)
    requires
        0 <= k < s.len(),
    ensures
        ({
            let before = dom_preorder_all(s.take(k)).len() as int;
            let own = dom_preorder(s[k]);
            &&& before + own.len() <= dom_preorder_all(s).len()
            &&& dom_preorder_all(s).subrange(before, before + own.len()) == own
        }),
    decreases s.len(),
{
    let before = dom_preorder_all(s.take(k)).len() as int;
    let own = dom_preorder(s[k]);
    if k < s.len() - 1 {
        lemma_child_nodes(s.drop_last(), k);
        assert(s.drop_last().take(k) =~= s.take(k));
        assert(dom_preorder_all(s).subrange(before, before + own.len()) =~= dom_preorder_all(
            s.drop_last(),
        ).subrange(before, before + own.len()));
    } else {
        assert(s.take(k) =~= s.drop_last());
        assert(dom_preorder_all(s).subrange(before, before + own.len()) =~= own);
    }
}

} // verus!
