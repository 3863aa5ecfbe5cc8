use kite_lite_core::dom::{html_fits, DomData, DomNode};
use kite_lite_core::html::page_from_document;
use kite_lite_core::{parse_html, resolve_links, Element};

#[test]
fn extracts_agent_useful_page_data() {
    let page = parse_html(
        r#"<html><head><title>Example</title></head><body><h1>Hello</h1><a href='/docs'>Docs</a></body></html>"#,
    );
    assert_eq!(page.title.as_deref(), Some("Example"));
    assert!(page.text.contains("Hello"));
    assert_eq!(page.links, vec!["/docs"]);
}

fn collect_hrefs(element: &Element, hrefs: &mut Vec<String>) {
    if let Some(href) = &element.href {
        hrefs.push(href.clone());
    }
    for child in &element.children {
        collect_hrefs(child, hrefs);
    }
}

#[test]
fn resolves_relative_links_against_base_url() {
    let mut page = parse_html(
        r#"<a href="/docs">Docs</a><a href="page2.html">Page2</a><a href="https://other.example/x">Abs</a>"#,
    );
    resolve_links(&mut page, "https://example.com/dir/index.html");

    assert_eq!(
        page.links,
        vec![
            "https://example.com/docs",
            "https://example.com/dir/page2.html",
            "https://other.example/x",
        ]
    );

    let mut hrefs = Vec::new();
    collect_hrefs(&page.root, &mut hrefs);
    assert_eq!(
        hrefs,
        vec![
            "https://example.com/docs",
            "https://example.com/dir/page2.html",
            "https://other.example/x",
        ]
    );
}

#[test]
fn resolve_links_ignores_unparseable_base() {
    let mut page = parse_html(r#"<a href="/docs">Docs</a>"#);
    resolve_links(&mut page, "not a url");
    assert_eq!(page.links, vec!["/docs"]);
}

#[test]
fn resolving_again_changes_nothing() {
    let base = "https://example.com/dir/index.html";
    let mut page = parse_html(r##"<a href="../a b?q#f">A</a><form action="go"></form>"##);
    resolve_links(&mut page, base);
    assert_eq!(page.links, vec!["https://example.com/a%20b?q#f"]);
    let links = page.links.clone();
    resolve_links(&mut page, base);
    assert_eq!(page.links, links);
    let form = find_by_tag(&page.root, "form").unwrap();
    assert_eq!(form.href.as_deref(), Some("https://example.com/dir/go"));
}

fn find_by_tag<'a>(element: &'a Element, tag: &str) -> Option<&'a Element> {
    if element.tag == tag {
        return Some(element);
    }
    element.children.iter().find_map(|child| find_by_tag(child, tag))
}

#[test]
fn captures_input_value_name_and_kind() {
    let page = parse_html(r#"<input type="text" name="q" value="hello">"#);
    let input = find_by_tag(&page.root, "input").expect("input missing");
    assert_eq!(input.value.as_deref(), Some("hello"));
    assert_eq!(input.name.as_deref(), Some("q"));
    assert_eq!(input.kind.as_deref(), Some("text"));
}

#[test]
fn textarea_defaults_value_to_its_text_content() {
    let page = parse_html(r#"<textarea name="bio">Initial text</textarea>"#);
    let textarea = find_by_tag(&page.root, "textarea").expect("textarea missing");
    assert_eq!(textarea.value.as_deref(), Some("Initial text"));
}

#[test]
fn form_action_is_captured_as_href_and_gets_resolved() {
    let mut page = parse_html(r#"<form action="/search"><input name="q"></form>"#);
    resolve_links(&mut page, "https://example.com/dir/index.html");
    let form = find_by_tag(&page.root, "form").expect("form missing");
    assert_eq!(form.href.as_deref(), Some("https://example.com/search"));
}

#[test]
fn only_links_and_forms_have_an_address() {
    let page = parse_html(r#"<map><area href="/x"></map><a>no link</a><form></form>"#);
    assert!(find_by_tag(&page.root, "area").expect("area missing").href.is_none());
    assert!(find_by_tag(&page.root, "a").expect("a missing").href.is_none());
    assert!(find_by_tag(&page.root, "form").expect("form missing").href.is_none());
    assert!(page.links.is_empty());
}

#[test]
fn mail_and_script_links_are_left_as_they_are() {
    let mut page = parse_html(
        r#"<a href="MAILTO:ñ@example.com">mail</a><a href="javascript:go('ñ')">run</a><a href="tel:1">call</a>"#,
    );
    resolve_links(&mut page, "https://example.com/");
    assert_eq!(page.links, vec!["MAILTO:ñ@example.com", "javascript:go('ñ')", "tel:1"]);
}

#[test]
fn text_is_normalized_and_opaque_tags_say_nothing() {
    let page = parse_html(
        "<head><title>  A \n title </title></head><body> one\n<b>two</b><script>var x;</script><style>p{}</style> three</body>",
    );
    assert_eq!(page.title.as_deref(), Some("A title"));
    assert_eq!(page.text, "one two three");
    assert_eq!(page.root.tag, "document");
    assert_eq!(page.root.text, page.text);
    assert!(find_by_tag(&page.root, "script").expect("script missing").text.is_empty());
    assert!(find_by_tag(&page.root, "head").expect("head missing").children.is_empty());
}

#[test]
fn meta_comes_from_the_head() {
    let page = parse_html(
        r#"<head><meta name="a" content="1"></head><body><p>x</p><meta name="b" content="2"></body>"#,
    );
    assert_eq!(page.meta, vec![("a".to_string(), "1".to_string())]);
}

#[test]
fn meta_is_keyed_by_name_then_property() {
    let page = parse_html(
        r#"<meta name="description" content="d"><meta property="og:title" content="t"><meta name="a" property="b" content="c"><meta charset="utf-8"><meta name="empty">"#,
    );
    let expected = vec![
        ("description".to_string(), "d".to_string()),
        ("og:title".to_string(), "t".to_string()),
        ("a".to_string(), "c".to_string()),
    ];
    assert_eq!(page.meta, expected);
    assert!(page.cookies.is_empty());
    assert!(page.url.is_none());
}

#[test]
fn source_is_kept_as_it_was_read() {
    let source = "<p>a &amp; b";
    let page = parse_html(source);
    assert_eq!(page.source.as_deref(), Some(source));
    assert_eq!(page.text, "a & b");
}

#[test]
fn tool_attributes_are_captured() {
    let page = parse_html(
        r#"<form toolname="n" tooldescription="d" toolautosubmit method="post"><input name="q" required toolparamdescription="p"></form><img alt="">"#,
    );
    let form = find_by_tag(&page.root, "form").expect("form missing");
    assert_eq!(form.tool_name.as_deref(), Some("n"));
    assert_eq!(form.tool_description.as_deref(), Some("d"));
    assert_eq!(form.method.as_deref(), Some("post"));
    assert!(form.tool_autosubmit);
    assert!(!form.required);
    let input = find_by_tag(&page.root, "input").expect("input missing");
    assert!(input.required);
    assert_eq!(input.tool_param_description.as_deref(), Some("p"));
    assert_eq!(find_by_tag(&page.root, "img").expect("img missing").alt.as_deref(), Some(""));
}

fn node(data: DomData, children: Vec<DomNode>) -> DomNode {
    DomNode { data, children }
}

fn tag(name: &str, attrs: Vec<(&str, &str)>, children: Vec<DomNode>) -> DomNode {
    let attrs = attrs.into_iter().map(|(k, v)| (k.to_string(), v.to_string())).collect();
    node(DomData::Element { tag: name.to_string(), attrs }, children)
}

#[test]
fn page_is_made_of_a_document() {
    let document = node(
        DomData::Document,
        vec![
            node(DomData::Doctype, vec![]),
            tag(
                "html",
                vec![("lang", "es")],
                vec![
                    tag("head", vec![], vec![tag("title", vec![], vec![node(DomData::Text(" T ".to_string()), vec![])])]),
                    tag(
                        "body",
                        vec![],
                        vec![
                            node(DomData::Comment, vec![]),
                            node(DomData::Text(" loose  text ".to_string()), vec![]),
                            tag("a", vec![("href", "/x"), ("href", "/y")], vec![node(DomData::Text("x".to_string()), vec![])]),
                        ],
                    ),
                ],
            ),
        ],
    );
    let page = page_from_document(&document, "the source");
    assert_eq!(page.title.as_deref(), Some("T"));
    assert_eq!(page.text, "loose text x");
    assert_eq!(page.links, vec!["/x"]);
    assert_eq!(page.root.children.len(), 1);
    assert_eq!(page.root.children[0].lang.as_deref(), Some("es"));
    assert_eq!(page.root.children[0].children[1].children[0].text, "x");
    assert_eq!(page.source.as_deref(), Some("the source"));
}

#[test]
fn ordinary_documents_fit_the_parser() {
    assert!(html_fits(""));
    assert!(html_fits("<p>ñ</p>"));
}
