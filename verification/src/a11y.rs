//! A small accessibility linter: images without `alt`, links that announce
//! nothing, a missing `lang`, more than one `<h1>`, heading levels that are
//! skipped. Not a conformance checker: a handful of the most common mistakes
//! that are cheap to detect.

use crate::model::{Element, ElementView, Page, PageView};
use crate::seqs::{
    count_where, first_where, gather, lemma_count_push, lemma_first_where_is, lemma_gather_counts,
    lemma_gather_lists, lemma_gather_push, lemma_gather_same, lists,
};
use crate::text::{
    all_white_space, decimal, decimal_text, first_chars, is_blank, lemma_no_words, or_empty,
    same_text, take_chars, text_or_empty, words,
};
use crate::tree::{nodes_of, preorder};
use vstd::prelude::*;

verus! {

#[derive(Debug, Clone, Copy, PartialEq, Eq, Structural)]
pub enum Severity {
    Error,
    Warning,
    Info,
}

#[derive(Debug)]
pub struct A11yFinding {
    pub severity: Severity,
    pub message: String,
}

/// What a finding is, as a mathematical value.
#[verifier::ext_equal]
pub struct FindingView {
    pub severity: Severity,
    pub message: Seq<char>,
}

impl DeepView for A11yFinding {
    type V = FindingView;

    open spec fn deep_view(&self) -> FindingView {
        FindingView { severity: self.severity, message: self.message@ }
    }
}

pub open spec fn warning(message: Seq<char>) -> FindingView {
    FindingView { severity: Severity::Warning, message }
}

/// An image without an `alt`. An empty one is in order: it says that the
/// image is decorative.
pub open spec fn is_undescribed_image(e: ElementView) -> bool {
    e.tag == "img"@ && e.alt is None
}

/// An image with an `alt` that says something.
pub open spec fn is_described_image(e: ElementView) -> bool {
    e.tag == "img"@ && e.alt is Some && e.alt->0.len() > 0
}

/// Whether the element is such an image or has one below it.
pub open spec fn shows_described_image(e: ElementView) -> bool {
    exists|k: int| 0 <= k < preorder(e).len() && is_described_image(#[trigger] preorder(e)[k])
}

/// A link that a screen reader has nothing to announce of.
pub open spec fn is_silent_link(e: ElementView) -> bool {
    e.tag == "a"@ && all_white_space(e.text) && !shows_described_image(e)
}

pub open spec fn image_message() -> Seq<char> {
    "<img> sin atributo 'alt': un lector de pantalla no puede describirla (usa alt=\"\" si es decorativa)"@
}

pub open spec fn link_message(e: ElementView) -> Seq<char> {
    "<a href=\""@ + text_or_empty(e.href)
        + "\"> sin texto ni imagen con 'alt': un lector de pantalla no anuncia nada util"@
}

pub open spec fn lang_message() -> Seq<char> {
    "<html> sin atributo 'lang': un lector de pantalla no sabe en que idioma anunciar la pagina"@
}

pub open spec fn image_check() -> spec_fn(ElementView) -> Seq<FindingView> {
    |e: ElementView|
        if is_undescribed_image(e) {
            seq![warning(image_message())]
        } else {
            Seq::empty()
        }
}

pub open spec fn link_check() -> spec_fn(ElementView) -> Seq<FindingView> {
    |e: ElementView|
        if is_silent_link(e) {
            seq![warning(link_message(e))]
        } else {
            Seq::empty()
        }
}

pub open spec fn tag_test(tag: Seq<char>) -> spec_fn(ElementView) -> bool {
    |e: ElementView| e.tag == tag
}

/// The language of the page: that of the first `<html>`.
pub open spec fn lang_findings(nodes: Seq<ElementView>) -> Seq<FindingView> {
    let at = first_where(nodes, tag_test("html"@));
    if at < nodes.len() && all_white_space(text_or_empty(nodes[at].lang)) {
        seq![warning(lang_message())]
    } else {
        Seq::empty()
    }
}

/// The level of a heading; 0 for a tag that is none.
pub open spec fn level_of(tag: Seq<char>) -> int {
    if tag == "h1"@ {
        1
    } else if tag == "h2"@ {
        2
    } else if tag == "h3"@ {
        3
    } else if tag == "h4"@ {
        4
    } else if tag == "h5"@ {
        5
    } else if tag == "h6"@ {
        6
    } else {
        0
    }
}

pub open spec fn heading_pick() -> spec_fn(ElementView) -> Seq<ElementView> {
    |e: ElementView|
        if level_of(e.tag) > 0 {
            seq![e]
        } else {
            Seq::empty()
        }
}

/// The headings among the elements, in order.
pub open spec fn headings_of(nodes: Seq<ElementView>) -> Seq<ElementView> {
    gather(nodes, heading_pick())
}

pub open spec fn main_heading_findings(headings: Seq<ElementView>) -> Seq<FindingView> {
    let count = count_where(headings, tag_test("h1"@));
    if count > 1 {
        seq![
            warning(
                "hay "@ + decimal(count)
                    + " elementos <h1> en la pagina: deberia haber un unico encabezado principal"@,
            ),
        ]
    } else {
        Seq::empty()
    }
}

pub open spec fn skip_message(previous: int, heading: ElementView) -> Seq<char> {
    "salto de nivel de encabezado: <h"@ + decimal(previous as nat) + "> seguido de <h"@ + decimal(
        level_of(heading.tag) as nat,
    ) + "> (deberia ser <h"@ + decimal((previous + 1) as nat) + ">) - texto: '"@ + first_chars(
        heading.text,
        40,
    ) + "'"@
}

/// A heading more than one level below the one before it.
pub open spec fn skip_findings(headings: Seq<ElementView>) -> Seq<FindingView>
    decreases headings.len(),
{
    if headings.len() < 2 {
        Seq::empty()
    } else {
        let heading = headings.last();
        let previous = level_of(headings[headings.len() - 2].tag);
        let before = skip_findings(headings.drop_last());
        if level_of(heading.tag) > previous + 1 {
            before.push(warning(skip_message(previous, heading)))
        } else {
            before
        }
    }
}

/// What the linter says of a page.
pub open spec fn findings_of(page: PageView) -> Seq<FindingView> {
    let nodes = preorder(page.root);
    gather(nodes, image_check()) + gather(nodes, link_check()) + lang_findings(nodes)
        + main_heading_findings(headings_of(nodes)) + skip_findings(headings_of(nodes))
}

/// The level of a heading.
pub fn heading_level(tag: &str) -> (level: u8)
    requires
        level_of(tag@) > 0,
    ensures
        level == level_of(tag@),
{
    level_or_zero(tag)
}

fn level_or_zero(tag: &str) -> (level: u8)
    ensures
        level == level_of(tag@),
{
    if same_text(tag, "h1") {
        1
    } else if same_text(tag, "h2") {
        2
    } else if same_text(tag, "h3") {
        3
    } else if same_text(tag, "h4") {
        4
    } else if same_text(tag, "h5") {
        5
    } else if same_text(tag, "h6") {
        6
    } else {
        0
    }
}

fn has_descendant_with_alt(e: &Element) -> (yes: bool)
    ensures
        yes == shows_described_image(e.deep_view()),
{
    let nodes = nodes_of(e);
    for i in 0..nodes.len()
        invariant
            nodes.deep_view() == preorder(e.deep_view()),
            forall|k: int|
                0 <= k < i ==> !is_described_image(#[trigger] preorder(e.deep_view())[k]),
    {
        assert(nodes.deep_view()[i as int] == nodes@[i as int].deep_view());
        if same_text(nodes[i].tag.as_str(), "img") {
            if let Some(alt) = &nodes[i].alt {
                if !alt.as_str().is_empty() {
                    assert(is_described_image(preorder(e.deep_view())[i as int]));
                    return true;
                }
            }
        }
    }
    false
}

fn check_images(nodes: &Vec<&Element>) -> (findings: Vec<A11yFinding>)
    ensures
        findings.deep_view() == gather(nodes.deep_view(), image_check()),
{
    let mut findings: Vec<A11yFinding> = Vec::new();
    let ghost listed = nodes.deep_view();
    assert(listed.take(0) =~= Seq::empty());
    assert(findings.deep_view() =~= Seq::empty());
    for i in 0..nodes.len()
        invariant
            listed == nodes.deep_view(),
            findings.deep_view() == gather(listed.take(i as int), image_check()),
    {
        let e = nodes[i];
        let ghost held = findings.deep_view();
        proof {
            assert(listed.take(i + 1) =~= listed.take(i as int).push(e.deep_view()));
            lemma_gather_push(listed.take(i as int), e.deep_view(), image_check());
        }
        if same_text(e.tag.as_str(), "img") && e.alt.is_none() {
            findings.push(
                A11yFinding {
                    severity: Severity::Warning,
                    message: "<img> sin atributo 'alt': un lector de pantalla no puede describirla (usa alt=\"\" si es decorativa)".to_owned(),
                },
            );
            assert(findings.deep_view() =~= held + image_check()(e.deep_view()));
        } else {
            assert(findings.deep_view() =~= held + image_check()(e.deep_view()));
        }
    }
    assert(listed.take(listed.len() as int) =~= listed);
    findings
}

fn check_links(nodes: &Vec<&Element>, findings: &mut Vec<A11yFinding>)
    ensures
        final(findings).deep_view() == old(findings).deep_view() + gather(
            nodes.deep_view(),
            link_check(),
        ),
{
    let ghost before = findings.deep_view();
    let ghost listed = nodes.deep_view();
    assert(listed.take(0) =~= Seq::empty());
    assert(findings.deep_view() =~= before + gather(listed.take(0), link_check()));
    for i in 0..nodes.len()
        invariant
            listed == nodes.deep_view(),
            findings.deep_view() == before + gather(listed.take(i as int), link_check()),
    {
        let e = nodes[i];
        let ghost held = findings.deep_view();
        proof {
            assert(listed.take(i + 1) =~= listed.take(i as int).push(e.deep_view()));
            lemma_gather_push(listed.take(i as int), e.deep_view(), link_check());
        }
        if same_text(e.tag.as_str(), "a") && is_blank(e.text.as_str()) && !has_descendant_with_alt(
            e,
        ) {
            let message = "<a href=\"".to_owned().concat(or_empty(&e.href)).concat(
                "\"> sin texto ni imagen con 'alt': un lector de pantalla no anuncia nada util",
            );
            assert(message@ =~= link_message(e.deep_view()));
            findings.push(A11yFinding { severity: Severity::Warning, message });
            assert(findings.deep_view() =~= held.push(warning(message@)));
        }
        assert(findings.deep_view() =~= held + link_check()(e.deep_view()));
        assert(findings.deep_view() =~= before + gather(listed.take(i + 1), link_check()));
    }
    assert(listed.take(listed.len() as int) =~= listed);
}

fn check_lang(nodes: &Vec<&Element>, findings: &mut Vec<A11yFinding>)
    ensures
        final(findings).deep_view() == old(findings).deep_view() + lang_findings(
            nodes.deep_view(),
        ),
{
    let ghost before = findings.deep_view();
    let ghost test = tag_test("html"@);
    for i in 0..nodes.len()
        invariant
            test == tag_test("html"@),
            before == old(findings).deep_view(),
            findings.deep_view() == before,
            forall|k: int| 0 <= k < i ==> !test(#[trigger] nodes.deep_view()[k]),
    {
        assert(nodes.deep_view()[i as int] == nodes@[i as int].deep_view());
        if same_text(nodes[i].tag.as_str(), "html") {
            proof {
                lemma_first_where_is(nodes.deep_view(), test, i as int);
            }
            if is_blank(or_empty(&nodes[i].lang)) {
                findings.push(
                    A11yFinding {
                        severity: Severity::Warning,
                        message: "<html> sin atributo 'lang': un lector de pantalla no sabe en que idioma anunciar la pagina".to_owned(),
                    },
                );
                assert(findings.deep_view() =~= before.push(warning(lang_message())));
            }
            assert(findings.deep_view() =~= before + lang_findings(nodes.deep_view()));
            return;
        }
    }
    proof {
        lemma_first_where_is(nodes.deep_view(), test, nodes@.len() as int);
    }
    assert(findings.deep_view() =~= before + lang_findings(nodes.deep_view()));
}

fn collect_headings<'a>(nodes: &Vec<&'a Element>) -> (headings: Vec<&'a Element>)
    ensures
        headings.deep_view() == headings_of(nodes.deep_view()),
{
    let mut headings: Vec<&'a Element> = Vec::new();
    let ghost listed = nodes.deep_view();
    assert(listed.take(0) =~= Seq::empty());
    assert(headings.deep_view() =~= Seq::empty());
    for i in 0..nodes.len()
        invariant
            listed == nodes.deep_view(),
            headings.deep_view() == headings_of(listed.take(i as int)),
    {
        let e = nodes[i];
        let ghost held = headings.deep_view();
        proof {
            assert(listed.take(i + 1) =~= listed.take(i as int).push(e.deep_view()));
            lemma_gather_push(listed.take(i as int), e.deep_view(), heading_pick());
        }
        if level_or_zero(e.tag.as_str()) > 0 {
            headings.push(e);
        }
        assert(headings.deep_view() =~= held + heading_pick()(e.deep_view()));
    }
    assert(listed.take(listed.len() as int) =~= listed);
    headings
}

proof fn lemma_headings(nodes: Seq<ElementView>)
    ensures
        forall|k: int|
            0 <= k < headings_of(nodes).len() ==> level_of((#[trigger] headings_of(nodes)[k]).tag)
                > 0,
    decreases nodes.len(),
{
    if nodes.len() > 0 {
        lemma_headings(nodes.drop_last());
    }
}

fn check_heading_hierarchy(headings: &Vec<&Element>, findings: &mut Vec<A11yFinding>)
    requires
        forall|k: int|
            0 <= k < headings.deep_view().len() ==> level_of(
                (#[trigger] headings.deep_view()[k]).tag,
            ) > 0,
    ensures
        final(findings).deep_view() == old(findings).deep_view() + main_heading_findings(
            headings.deep_view(),
        ) + skip_findings(headings.deep_view()),
{
    let ghost listed = headings.deep_view();
    let ghost test = tag_test("h1"@);
    let ghost before = findings.deep_view();
    let mut h1_count: usize = 0;
    assert(listed.take(0) =~= Seq::empty());
    for i in 0..headings.len()
        invariant
            listed == headings.deep_view(),
            test == tag_test("h1"@),
            h1_count <= i,
            h1_count == count_where(listed.take(i as int), test),
    {
        let e = headings[i];
        proof {
            assert(listed.take(i + 1) =~= listed.take(i as int).push(e.deep_view()));
            lemma_count_push(listed.take(i as int), e.deep_view(), test);
        }
        if same_text(e.tag.as_str(), "h1") {
            h1_count = h1_count + 1;
        }
    }
    assert(listed.take(listed.len() as int) =~= listed);
    if h1_count > 1 {
        let message = "hay ".to_owned().concat(decimal_text(h1_count as u128).as_str()).concat(
            " elementos <h1> en la pagina: deberia haber un unico encabezado principal",
        );
        findings.push(A11yFinding { severity: Severity::Warning, message });
    }
    let ghost counted = findings.deep_view();
    assert(counted =~= before + main_heading_findings(listed));
    assert(findings.deep_view() =~= counted + skip_findings(listed.take(0)));
    for i in 0..headings.len()
        invariant
            listed == headings.deep_view(),
            forall|k: int| 0 <= k < listed.len() ==> level_of((#[trigger] listed[k]).tag) > 0,
            findings.deep_view() == counted + skip_findings(listed.take(i as int)),
    {
        let heading = headings[i];
        let ghost now = listed.take(i + 1);
        let ghost held = findings.deep_view();
        assert(now.drop_last() =~= listed.take(i as int));
        assert(listed[i as int] == heading.deep_view());
        let level = heading_level(heading.tag.as_str());
        if i > 0 {
            assert(listed[i - 1] == headings@[i - 1].deep_view());
            let previous = heading_level(headings[i - 1].tag.as_str());
            if level > previous + 1 {
                let message = "salto de nivel de encabezado: <h".to_owned().concat(
                    decimal_text(previous as u128).as_str(),
                ).concat("> seguido de <h").concat(decimal_text(level as u128).as_str()).concat(
                    "> (deberia ser <h",
                ).concat(decimal_text((previous + 1) as u128).as_str()).concat(
                    ">) - texto: '",
                ).concat(take_chars(heading.text.as_str(), 40).as_str()).concat("'");
                findings.push(A11yFinding { severity: Severity::Warning, message });
                assert(findings.deep_view() =~= held.push(
                    warning(skip_message(previous as int, heading.deep_view())),
                ));
            }
        }
        assert(findings.deep_view() =~= counted + skip_findings(now));
    }
    assert(findings.deep_view() =~= before + main_heading_findings(listed) + skip_findings(listed));
}

/// Checks a page against a handful of practical accessibility rules.
pub fn lint(page: &Page) -> (findings: Vec<A11yFinding>)
    ensures
        findings.deep_view() == findings_of(page.deep_view()),
{
    let nodes = nodes_of(&page.root);
    let mut findings = check_images(&nodes);
    check_links(&nodes, &mut findings);
    check_lang(&nodes, &mut findings);
    let headings = collect_headings(&nodes);
    proof {
        lemma_headings(nodes.deep_view());
    }
    check_heading_hierarchy(&headings, &mut findings);
    findings
}

proof fn lemma_checks_warn<A>(s: Seq<A>, f: spec_fn(A) -> Seq<FindingView>)
    requires
        forall|x: A, j: int|
            0 <= j < f(x).len() ==> (#[trigger] f(x)[j]).severity == Severity::Warning,
    ensures
        forall|k: int|
            0 <= k < gather(s, f).len() ==> (#[trigger] gather(s, f)[k]).severity
                == Severity::Warning,
    decreases s.len(),
{
    if s.len() > 0 {
        lemma_checks_warn(s.drop_last(), f);
        let before = gather(s.drop_last(), f);
        assert forall|k: int| 0 <= k < gather(s, f).len() implies (#[trigger] gather(
            s,
            f,
        )[k]).severity == Severity::Warning by {
            if k >= before.len() {
                assert(gather(s, f)[k] == f(s.last())[k - before.len()]);
            }
        }
    }
}

proof fn lemma_skips_warn(headings: Seq<ElementView>)
    ensures
        forall|k: int|
            0 <= k < skip_findings(headings).len() ==> (#[trigger] skip_findings(
                headings,
            )[k]).severity == Severity::Warning,
    decreases headings.len(),
{
    if headings.len() >= 2 {
        lemma_skips_warn(headings.drop_last());
    }
}

/// Every rule warns: none is an error, so that a finding of this linter
/// never fails a build.
pub proof fn law_findings_are_warnings(page: PageView, k: int)
    requires
        0 <= k < findings_of(page).len(),
    ensures
        findings_of(page)[k].severity == Severity::Warning,
{
    let nodes = preorder(page.root);
    lemma_checks_warn(nodes, image_check());
    lemma_checks_warn(nodes, link_check());
    lemma_skips_warn(headings_of(nodes));
}

/// The images and links of a page are found out one by one: there is nothing
/// to say of them if and only if each image has an `alt` and each link
/// announces something.
pub proof fn law_silent_only_without_mistakes(nodes: Seq<ElementView>)
    ensures
        gather(nodes, image_check()).len() + gather(nodes, link_check()).len() == 0 <==> forall|
            k: int,
        |
            0 <= k < nodes.len() ==> !is_undescribed_image(#[trigger] nodes[k]) && !is_silent_link(
                nodes[k],
            ),
    decreases nodes.len(),
{
    if nodes.len() > 0 {
        let head = nodes.drop_last();
        law_silent_only_without_mistakes(head);
        let last = nodes.last();
        assert(nodes[nodes.len() - 1] == last);
        if forall|k: int|
            0 <= k < head.len() ==> !is_undescribed_image(#[trigger] head[k]) && !is_silent_link(
                head[k],
            ) {
            assert forall|k: int| 0 <= k < nodes.len() - 1 implies !is_undescribed_image(
                #[trigger] nodes[k],
            ) && !is_silent_link(nodes[k]) by {
                assert(head[k] == nodes[k]);
            }
        } else {
            let k = choose|k: int|
                0 <= k < head.len() && (is_undescribed_image(#[trigger] head[k]) || is_silent_link(
                    head[k],
                ));
            assert(nodes[k] == head[k]);
        }
    }
}

/// The level of a heading is the digit of its tag: `h1` to `h6` are headings
/// and nothing else is.
pub proof fn law_level_is_the_digit(tag: Seq<char>)
    ensures
        1 <= level_of(tag) <= 6 <==> tag.len() == 2 && tag[0] == 'h' && '1' <= tag[1] <= '6',
        1 <= level_of(tag) <= 6 ==> level_of(tag) == tag[1] as int - '0' as int,
        level_of(tag) == 0 || 1 <= level_of(tag) <= 6,
{
    reveal_strlit("h1");
    reveal_strlit("h2");
    reveal_strlit("h3");
    reveal_strlit("h4");
    reveal_strlit("h5");
    reveal_strlit("h6");
    if tag.len() == 2 && tag[0] == 'h' && '1' <= tag[1] <= '6' {
        if tag[1] == '1' {
            assert(tag =~= "h1"@);
        } else if tag[1] == '2' {
            assert(tag =~= "h2"@);
        } else if tag[1] == '3' {
            assert(tag =~= "h3"@);
        } else if tag[1] == '4' {
            assert(tag =~= "h4"@);
        } else if tag[1] == '5' {
            assert(tag =~= "h5"@);
        } else {
            assert(tag =~= "h6"@);
        }
    }
}

spec fn numbers(n: int) -> Seq<int> {
    Seq::new(n as nat, |j: int| j)
}

spec fn skip_pick(headings: Seq<ElementView>) -> spec_fn(int) -> Seq<FindingView> {
    |j: int|
        if j > 0 && level_of(headings[j].tag) > level_of(headings[j - 1].tag) + 1 {
            seq![warning(skip_message(level_of(headings[j - 1].tag), headings[j]))]
        } else {
            Seq::empty()
        }
}

proof fn lemma_skips_gathered(headings: Seq<ElementView>)
    ensures
        skip_findings(headings) == gather(numbers(headings.len() as int), skip_pick(headings)),
    decreases headings.len(),
{
    let n = headings.len() as int;
    if n > 0 {
        let head = headings.drop_last();
        lemma_skips_gathered(head);
        assert(numbers(n).drop_last() =~= numbers(n - 1));
        lemma_gather_same(numbers(n - 1), skip_pick(head), skip_pick(headings));
        assert(numbers(n).last() == n - 1);
        let all = gather(numbers(n), skip_pick(headings));
        assert(all == gather(numbers(n - 1), skip_pick(headings)) + skip_pick(headings)(n - 1));
        assert(skip_findings(headings) =~= all);
    }
}

/// What the linter finds, and in what order: each image without an `alt`;
/// each link without a word of text in which no image with an `alt` that
/// says something stands; the first `<html>` if it has no language; more than
/// one `<h1>`; and each heading that is more than one level below the heading
/// before it. Nothing else is found.
pub proof fn law_findings_are_the_mistakes(page: PageView, at: int)
    requires
        0 <= at <= preorder(page.root).len(),
        forall|k: int| 0 <= k < at ==> (#[trigger] preorder(page.root)[k]).tag != "html"@,
        at < preorder(page.root).len() ==> preorder(page.root)[at].tag == "html"@,
    ensures
        ({
            let nodes = preorder(page.root);
            let found = findings_of(page);
            let bare = |e: ElementView| e.tag == "img"@ && e.alt is None;
            let silent = |e: ElementView|
                {
                    &&& e.tag == "a"@
                    &&& words(e.text).len() == 0
                    &&& forall|k: int|
                        0 <= k < preorder(e).len() && (#[trigger] preorder(e)[k]).tag == "img"@
                            ==> preorder(e)[k].alt is None || preorder(e)[k].alt->0.len() == 0
                };
            let a = count_where(nodes, bare) as int;
            let b = a + count_where(nodes, silent);
            let c = b + if at < nodes.len() && (nodes[at].lang is None || words(
                nodes[at].lang->0,
            ).len() == 0) {
                1int
            } else {
                0
            };
            let headings = headings_of(nodes);
            let mains = count_where(headings, |e: ElementView| e.tag == "h1"@);
            let d = c + if mains > 1 {
                1int
            } else {
                0
            };
            &&& lists(
                found.subrange(0, a),
                nodes,
                bare,
                |e: ElementView| FindingView { severity: Severity::Warning, message: image_message() },
            )
            &&& lists(
                found.subrange(a, b),
                nodes,
                silent,
                |e: ElementView|
                    FindingView {
                        severity: Severity::Warning,
                        message: "<a href=\""@ + (match e.href {
                            Some(href) => href,
                            None => Seq::empty(),
                        })
                            + "\"> sin texto ni imagen con 'alt': un lector de pantalla no anuncia nada util"@,
                    },
            )
            &&& c > b ==> found[b] == warning(lang_message())
            &&& lists(
                headings,
                nodes,
                |e: ElementView|
                    e.tag.len() == 2 && e.tag[0] == 'h' && '1' <= e.tag[1] <= '6',
                |e: ElementView| e,
            )
            &&& d > c ==> found[c].message == "hay "@ + decimal(mains)
                + " elementos <h1> en la pagina: deberia haber un unico encabezado principal"@
            &&& d <= found.len()
            &&& lists(
                found.subrange(d, found.len() as int),
                Seq::new(headings.len(), |j: int| j),
                |j: int|
                    j > 0 && headings[j].tag[1] as int > headings[j - 1].tag[1] as int + 1,
                |j: int|
                    warning(skip_message(level_of(headings[j - 1].tag), headings[j])),
            )
        }),
{
    let nodes = preorder(page.root);
    let found = findings_of(page);
    let bare = |e: ElementView| e.tag == "img"@ && e.alt is None;
    let silent = |e: ElementView|
        {
            &&& e.tag == "a"@
            &&& words(e.text).len() == 0
            &&& forall|k: int|
                0 <= k < preorder(e).len() && (#[trigger] preorder(e)[k]).tag == "img"@
                    ==> preorder(e)[k].alt is None || preorder(e)[k].alt->0.len() == 0
        };
    let main = |e: ElementView| e.tag == "h1"@;
    let headings = headings_of(nodes);
    let images = gather(nodes, image_check());
    let links = gather(nodes, link_check());
    let a = count_where(nodes, bare) as int;
    let b = a + count_where(nodes, silent);
    assert forall|e: ElementView| #[trigger] silent(e) == is_silent_link(e) by {
        lemma_no_words(e.text);
        if shows_described_image(e) {
            let k = choose|k: int|
                0 <= k < preorder(e).len() && is_described_image(#[trigger] preorder(e)[k]);
            assert(preorder(e)[k].tag == "img"@);
        }
    }
    lemma_gather_lists(
        nodes,
        image_check(),
        bare,
        |e: ElementView| FindingView { severity: Severity::Warning, message: image_message() },
    );
    lemma_gather_counts(nodes, image_check(), bare);
    lemma_gather_lists(
        nodes,
        link_check(),
        silent,
        |e: ElementView|
            FindingView {
                severity: Severity::Warning,
                message: "<a href=\""@ + (match e.href {
                    Some(href) => href,
                    None => Seq::empty(),
                })
                    + "\"> sin texto ni imagen con 'alt': un lector de pantalla no anuncia nada util"@,
            },
    );
    lemma_gather_counts(nodes, link_check(), silent);
    assert(found.subrange(0, a) =~= images);
    assert(found.subrange(a, b) =~= links);
    lemma_first_where_is(nodes, tag_test("html"@), at);
    if at < nodes.len() {
        lemma_no_words(text_or_empty(nodes[at].lang));
        assert(words(Seq::<char>::empty()).len() == 0);
    }
    let lang = lang_findings(nodes);
    let c = b + lang.len();
    assert(tag_test("h1"@) =~= main);
    let mains = main_heading_findings(headings);
    let d = c + mains.len();
    assert forall|e: ElementView| level_of(#[trigger] e.tag) > 0 <==> e.tag.len() == 2 && e.tag[0]
        == 'h' && '1' <= e.tag[1] <= '6' by {
        law_level_is_the_digit(e.tag);
    }
    lemma_gather_lists(
        nodes,
        heading_pick(),
        |e: ElementView| e.tag.len() == 2 && e.tag[0] == 'h' && '1' <= e.tag[1] <= '6',
        |e: ElementView| e,
    );
    lemma_skips_gathered(headings);
    assert(found.subrange(d, found.len() as int) =~= skip_findings(headings));
    assert(numbers(headings.len() as int) =~= Seq::new(headings.len(), |j: int| j));
    lemma_are_headings(nodes);
    assert forall|j: int| 0 <= j < headings.len() implies level_of(#[trigger] headings[j].tag)
        == headings[j].tag[1] as int - '0' as int by {
        law_level_is_the_digit(headings[j].tag);
    }
    lemma_gather_lists(
        Seq::new(headings.len(), |j: int| j),
        skip_pick(headings),
        |j: int| j > 0 && headings[j].tag[1] as int > headings[j - 1].tag[1] as int + 1,
        |j: int| warning(skip_message(level_of(headings[j - 1].tag), headings[j])),
    );
}

proof fn lemma_are_headings(nodes: Seq<ElementView>)
    ensures
        forall|k: int|
            0 <= k < headings_of(nodes).len() ==> level_of((#[trigger] headings_of(nodes)[k]).tag)
                > 0,
    decreases nodes.len(),
{
    if nodes.len() > 0 {
        lemma_are_headings(nodes.drop_last());
        let before = headings_of(nodes.drop_last());
        assert forall|k: int| 0 <= k < headings_of(nodes).len() implies level_of(
            (#[trigger] headings_of(nodes)[k]).tag,
        ) > 0 by {
            if k < before.len() {
                assert(headings_of(nodes)[k] == before[k]);
            }
        }
    }
}

/// A skipped level is told with the level before, the level it comes to, the
/// level that should have come, and the first 40 characters of the heading.
pub proof fn law_skip_is_told(previous: int, heading: ElementView)
    requires
        previous >= 0,
    ensures
        skip_message(previous, heading) == "salto de nivel de encabezado: <h"@ + decimal(
            previous as nat,
        ) + "> seguido de <h"@ + decimal(level_of(heading.tag) as nat) + "> (deberia ser <h"@
            + decimal((previous + 1) as nat) + ">) - texto: '"@ + (if heading.text.len() > 40 {
            heading.text.take(40)
        } else {
            heading.text
        }) + "'"@,
{
}

} // verus!
