//! The node tree that the HTML parser builds, as plain values.

use html5ever::tendril::TendrilSink;
use markup5ever_rcdom::NodeData;
use vstd::prelude::*;
use vstd::utf8::encode_utf8;

verus! {

/// What a node of a parsed document is.
#[derive(Debug)]
pub enum DomData {
    Document,
    Doctype,
    Text(String),
    Comment,
    Element { tag: String, attrs: Vec<(String, String)> },
    ProcessingInstruction,
}

/// A node of a parsed document.
#[derive(Debug)]
pub struct DomNode {
    pub data: DomData,
    pub children: Vec<DomNode>,
}

#[verifier::ext_equal]
pub enum DomDataView {
    Document,
    Doctype,
    Text(Seq<char>),
    Comment,
    Element { tag: Seq<char>, attrs: Seq<(Seq<char>, Seq<char>)> },
    ProcessingInstruction,
}

#[verifier::ext_equal]
pub struct DomView {
    pub data: DomDataView,
    pub children: Seq<DomView>,
}

impl DeepView for DomData {
    type V = DomDataView;

    open spec fn deep_view(&self) -> DomDataView {
        match self {
            DomData::Document => DomDataView::Document,
            DomData::Doctype => DomDataView::Doctype,
            DomData::Text(text) => DomDataView::Text(text@),
            DomData::Comment => DomDataView::Comment,
            DomData::Element { tag, attrs } => DomDataView::Element {
                tag: tag@,
                attrs: attrs.deep_view(),
            },
            DomData::ProcessingInstruction => DomDataView::ProcessingInstruction,
        }
    }
}

impl DomNode {
    pub open spec fn model(&self) -> DomView
        decreases self,
    {
        DomView {
            data: self.data.deep_view(),
            children: Seq::new(
                self.children@.len(),
                |i: int|
                    if 0 <= i < self.children@.len() {
                        self.children@[i].model()
                    } else {
                        arbitrary()
                    },
            ),
        }
    }
}

impl DeepView for DomNode {
    type V = DomView;

    open spec fn deep_view(&self) -> DomView {
        self.model()
    }
}

/// The children of a node's model are the models of its children.
pub proof fn lemma_dom_children(node: &DomNode)
    ensures
        node.model().children == node.children.deep_view(),
{
    assert(node.model().children =~= node.children.deep_view()) by {
        assert forall|i: int| 0 <= i < node.children@.len() implies node.model().children[i]
            == node.children@[i].model() by {}
    }
}

/// How long a source text may be, in bytes. The parser makes room for a text
/// in powers of two that a `u32` can hold, so that no text of its own grows
/// past 2147483648 bytes, that is 2^31; and what it makes of a source text
/// can be up to three times as long, as where it puts U+FFFD for U+0000.
pub const MAX_HTML_BYTES: usize = 715827882;

/// Whether a source text is short enough for the parser.
pub open spec fn fits_parser(source: Seq<char>) -> bool {
    encode_utf8(source).len() <= MAX_HTML_BYTES
}

/// Whether a source text is short enough for the parser.
pub fn html_fits(source: &str) -> (fits: bool)
    ensures
        fits == fits_parser(source@),
{
    source.as_bytes().len() <= MAX_HTML_BYTES
}

/// The document that the HTML parsing algorithm makes of a source text.
pub uninterp spec fn html_document(source: Seq<char>) -> DomView;

/// A node of the tree that the parser builds: opaque here.
#[verifier::external_type_specification]
#[verifier::external_body]
pub struct ExNode(markup5ever_rcdom::Node);

/// The converting half of [`parse_dom`]: turns a node of `markup5ever_rcdom`
/// and all that is below it into plain values, one for one. Nothing is
/// claimed of the result.
#[verifier::external_body]
fn plain_node(node: &markup5ever_rcdom::Handle) -> DomNode {
    let data = match &node.data {
        NodeData::Document => DomData::Document,
        NodeData::Doctype { .. } => DomData::Doctype,
        NodeData::Text { contents } => DomData::Text(contents.borrow().to_string()),
        NodeData::Comment { .. } => DomData::Comment,
        NodeData::Element { name, attrs, .. } => DomData::Element {
            tag: name.local.to_string(),
            attrs: attrs.borrow().iter().map(|a| (a.name.local.to_string(), a.value.to_string())).collect(),
        },
        NodeData::ProcessingInstruction { .. } => DomData::ProcessingInstruction,
    };
    DomNode { data, children: node.children.borrow().iter().map(plain_node).collect() }
}

/// Calls `html5ever::parse_document` on the whole text, with the default
/// options and a `markup5ever_rcdom::RcDom` to build the tree in. What comes
/// back depends on the text alone, and its root is the document node. The
/// parser fails on a text that is too long for it.
#[verifier::external_body]
pub(crate) fn parse_dom(source: &str) -> (dom: DomNode)
    requires
        fits_parser(source@),
    ensures
        dom.deep_view() == html_document(source@),
        dom.deep_view().data is Document,
{
    let sink = markup5ever_rcdom::RcDom::default();
    plain_node(&html5ever::parse_document(sink, Default::default()).one(source.to_owned()).document)
}

} // verus!
