//! Links made absolute.

use crate::model::{lemma_children, Element, ElementView, Page, PageView};
use crate::text::{ascii_lower, stands_at, starts_with, to_ascii_lower};
use crate::tree::{preorder, preorder_all};
use vstd::prelude::*;

verus! {

/// The absolute URL that a text is, written out; `None` where it is not one.
pub uninterp spec fn url_parsed(text: Seq<char>) -> Option<Seq<char>>;

/// The URL that a reference means on a page at `base`, written out; `None`
/// where the two make none.
pub uninterp spec fn url_joined(base: Seq<char>, reference: Seq<char>) -> Option<Seq<char>>;

/// Calls `url::Url::parse`. What comes back depends on the text alone.
#[verifier::external_body]
fn parse_url(text: &str) -> (url: Option<String>)
    ensures
        url.deep_view() == url_parsed(text@),
{
    url::Url::parse(text).ok().map(|url| url.to_string())
}

/// Calls `url::Url::join` on the URL that `base` parses to: where that
/// fails there is nothing to join to. What comes back depends on the two
/// texts alone.
#[verifier::external_body]
fn join_url(base: &str, reference: &str) -> (url: Option<String>)
    ensures
        url.deep_view() == url_joined(base@, reference@),
        url_parsed(base@) is None ==> url is None,
{
    url::Url::parse(base).ok()?.join(reference).ok().map(|url| url.to_string())
}

/// Whether a link names no page: a mail address or a script.
pub open spec fn leads_nowhere(reference: Seq<char>) -> bool {
    let lower = ascii_lower(reference);
    stands_at(lower, "mailto:"@, 0) || stands_at(lower, "javascript:"@, 0)
}

/// A reference made absolute: left as it is where that fails, and where it
/// names no page.
pub open spec fn resolved(base: Seq<char>, reference: Seq<char>) -> Seq<char> {
    if url_parsed(base) is None || leads_nowhere(reference) {
        reference
    } else {
        match url_joined(base, reference) {
            Some(url) => url,
            None => reference,
        }
    }
}

pub open spec fn resolved_href(base: Seq<char>, href: Option<Seq<char>>) -> Option<Seq<char>> {
    match href {
        Some(reference) => Some(resolved(base, reference)),
        None => None,
    }
}

/// The element with its link and all links below it made absolute.
pub open spec fn resolved_element(base: Seq<char>, e: ElementView) -> ElementView
    decreases e,
{
    ElementView {
        href: resolved_href(base, e.href),
        children: resolved_elements(base, e.children),
        ..e
    }
}

pub open spec fn resolved_elements(base: Seq<char>, s: Seq<ElementView>) -> Seq<ElementView>
    decreases s,
{
    if s.len() == 0 {
        Seq::empty()
    } else {
        resolved_elements(base, s.drop_last()).push(resolved_element(base, s.last()))
    }
}

/// The page with all its links made absolute.
pub open spec fn resolved_page(base: Seq<char>, page: PageView) -> PageView {
    PageView {
        links: page.links.map_values(|link: Seq<char>| resolved(base, link)),
        root: resolved_element(base, page.root),
        ..page
    }
}

fn resolve(base: &str, reference: &str) -> (url: String)
    ensures
        url@ == resolved(base@, reference@),
{
    let lower = to_ascii_lower(reference);
    if starts_with(lower.as_str(), "mailto:") || starts_with(lower.as_str(), "javascript:") {
        return reference.to_owned();
    }
    match join_url(base, reference) {
        Some(url) => url,
        None => reference.to_owned(),
    }
}

proof fn lemma_resolved_elements(base: Seq<char>, s: Seq<ElementView>)
    ensures
        resolved_elements(base, s).len() == s.len(),
        forall|k: int|
            0 <= k < s.len() ==> #[trigger] resolved_elements(base, s)[k] == resolved_element(
                base,
                s[k],
            ),
    decreases s.len(),
{
    if s.len() > 0 {
        lemma_resolved_elements(base, s.drop_last());
    }
}

fn resolve_element_hrefs(element: &mut Element, base: &str)
    ensures
        final(element).deep_view() == resolved_element(base@, old(element).deep_view()),
    decreases *old(element),
{
    let ghost tree = element.deep_view();
    proof {
        lemma_children(element);
        lemma_resolved_elements(base@, tree.children);
    }
    let href = match &element.href {
        Some(reference) => Some(resolve(base, reference.as_str())),
        None => None,
    };
    element.href = href;
    let mut i: usize = 0;
    while i < element.children.len()
        invariant
            i <= element.children@.len(),
            tree == old(element).deep_view(),
            tree.children == old(element).children.deep_view(),
            element.children@.len() == tree.children.len(),
            forall|k: int|
                i <= k < tree.children.len() ==> #[trigger] element.children@[k]
                    == old(element).children@[k],
            forall|k: int|
                0 <= k < i ==> (#[trigger] element.children@[k]).deep_view() == resolved_element(
                    base@,
                    tree.children[k],
                ),
            ({
                let e = *element;
                e == (Element { href: e.href, children: e.children, ..*old(element) })
            }),
            element.href.deep_view() == resolved_href(base@, tree.href),
        decreases element.children@.len() - i,
    {
        resolve_element_hrefs(&mut element.children[i], base);
        i = i + 1;
    }
    proof {
        lemma_children(element);
        assert(element.children.deep_view() =~= resolved_elements(base@, tree.children));
    }
}

/// Makes every link of a page (`links`, and the `href` of each element)
/// absolute, as seen from `base`. A link that cannot be joined to `base`, a
/// `mailto:` and a `javascript:` link are left as they are, and so is every
/// link where `base` is no URL.
pub fn resolve_links(page: &mut Page, base: &str)
    ensures
        final(page).deep_view() == resolved_page(base@, old(page).deep_view()),
{
    if parse_url(base).is_none() {
        proof {
            law_no_base_changes_nothing(base@, page.deep_view());
        }
        return;
    }
    let ghost f = |link: Seq<char>| resolved(base@, link);
    let ghost links = page.links.deep_view();
    let mut i: usize = 0;
    while i < page.links.len()
        invariant
            i <= page.links@.len(),
            page.links@.len() == links.len(),
            ({
                let p = *page;
                p == (Page { links: p.links, ..*old(page) })
            }),
            links == old(page).links.deep_view(),
            forall|k: int| 0 <= k < i ==> (#[trigger] page.links@[k])@ == resolved(base@, links[k]),
            forall|k: int| i <= k < links.len() ==> (#[trigger] page.links@[k])@ == links[k],
        decreases page.links@.len() - i,
    {
        let link = resolve(base, page.links[i].as_str());
        page.links.set(i, link);
        i = i + 1;
    }
    assert(page.links.deep_view() =~= links.map_values(f));
    resolve_element_hrefs(&mut page.root, base);
    assert(resolved_page(base@, old(page).deep_view()).links =~= links.map_values(f));
}

proof fn lemma_no_base_element(base: Seq<char>, e: ElementView)
    requires
        url_parsed(base) is None,
    ensures
        resolved_element(base, e) == e,
    decreases e,
{
    lemma_no_base_elements(base, e.children);
}

proof fn lemma_no_base_elements(base: Seq<char>, s: Seq<ElementView>)
    requires
        url_parsed(base) is None,
    ensures
        resolved_elements(base, s) == s,
    decreases s,
{
    if s.len() > 0 {
        lemma_no_base_elements(base, s.drop_last());
        lemma_no_base_element(base, s.last());
    }
    assert(resolved_elements(base, s) =~= s);
}

/// A base that is no URL leaves the page as it is.
pub proof fn law_no_base_changes_nothing(base: Seq<char>, page: PageView)
    requires
        url_parsed(base) is None,
    ensures
        resolved_page(base, page) == page,
{
    lemma_no_base_element(base, page.root);
    assert(resolved_page(base, page).links =~= page.links);
}

/// An address that may change, and no more: where there is none, there is
/// none.
pub open spec fn masked(href: Option<Seq<char>>) -> Option<Seq<char>> {
    match href {
        Some(_) => Some(Seq::empty()),
        None => None,
    }
}

/// An element with all addresses in it masked.
pub open spec fn masked_element(e: ElementView) -> ElementView
    decreases e,
{
    ElementView { href: masked(e.href), children: masked_elements(e.children), ..e }
}

pub open spec fn masked_elements(s: Seq<ElementView>) -> Seq<ElementView>
    decreases s,
{
    if s.len() == 0 {
        Seq::empty()
    } else {
        masked_elements(s.drop_last()).push(masked_element(s.last()))
    }
}

proof fn lemma_masked_element(base: Seq<char>, e: ElementView)
    ensures
        masked_element(resolved_element(base, e)) == masked_element(e),
    decreases e,
{
    lemma_masked_elements(base, e.children);
}

proof fn lemma_masked_elements(base: Seq<char>, s: Seq<ElementView>)
    ensures
        masked_elements(resolved_elements(base, s)) == masked_elements(s),
    decreases s,
{
    if s.len() > 0 {
        lemma_masked_elements(base, s.drop_last());
        lemma_masked_element(base, s.last());
        assert(resolved_elements(base, s).drop_last() =~= resolved_elements(base, s.drop_last()));
    }
}

/// Resolving changes addresses and nothing else: there are as many links and
/// the same elements with the same attributes, those have an address that
/// had one, and all else of the page stays.
pub proof fn law_resolving_changes_only_addresses(base: Seq<char>, page: PageView)
    ensures
        ({
            let resolved = resolved_page(base, page);
            &&& resolved.links.len() == page.links.len()
            &&& masked_element(resolved.root) == masked_element(page.root)
            &&& resolved == (PageView { links: resolved.links, root: resolved.root, ..page })
        }),
{
    lemma_masked_element(base, page.root);
}

/// Whether what a reference is joined to at a base is joined to it as itself.
pub open spec fn joins_once(base: Seq<char>, reference: Seq<char>) -> bool {
    url_joined(base, reference) matches Some(url) ==> url_joined(base, url) == Some(url)
}

/// Whether [`joins_once`] holds of the address of an element, if it has one.
pub open spec fn href_joins_once(base: Seq<char>, e: ElementView) -> bool {
    e.href matches Some(reference) ==> joins_once(base, reference)
}

proof fn lemma_resolved_twice(base: Seq<char>, reference: Seq<char>)
    requires
        joins_once(base, reference),
    ensures
        resolved(base, resolved(base, reference)) == resolved(base, reference),
{
}

proof fn lemma_element_twice(base: Seq<char>, e: ElementView)
    requires
        forall|k: int|
            0 <= k < preorder(e).len() ==> href_joins_once(base, #[trigger] preorder(e)[k]),
    ensures
        resolved_element(base, resolved_element(base, e)) == resolved_element(base, e),
    decreases e,
{
    let below = preorder_all(e.children);
    assert(href_joins_once(base, preorder(e)[0]));
    assert forall|k: int| 0 <= k < below.len() implies href_joins_once(
        base,
        #[trigger] below[k],
    ) by {
        assert(preorder(e)[k + 1] == below[k]);
    }
    lemma_elements_twice(base, e.children);
    if e.href is Some {
        lemma_resolved_twice(base, e.href->0);
    }
}

proof fn lemma_elements_twice(base: Seq<char>, s: Seq<ElementView>)
    requires
        forall|k: int|
            0 <= k < preorder_all(s).len() ==> href_joins_once(base, #[trigger] preorder_all(s)[k]),
    ensures
        resolved_elements(base, resolved_elements(base, s)) == resolved_elements(base, s),
    decreases s,
{
    if s.len() > 0 {
        let once = resolved_elements(base, s);
        let first = preorder_all(s.drop_last());
        let last = preorder(s.last());
        assert forall|k: int| 0 <= k < first.len() implies href_joins_once(
            base,
            #[trigger] first[k],
        ) by {
            assert(preorder_all(s)[k] == first[k]);
        }
        assert forall|k: int| 0 <= k < last.len() implies href_joins_once(
            base,
            #[trigger] last[k],
        ) by {
            assert(preorder_all(s)[first.len() + k] == last[k]);
        }
        lemma_elements_twice(base, s.drop_last());
        lemma_element_twice(base, s.last());
        assert(once.drop_last() =~= resolved_elements(base, s.drop_last()));
    }
}

/// Resolving a page again at the same base changes nothing, where what its
/// links and the addresses of its elements are joined to at the base is
/// joined to it as itself.
pub proof fn law_resolving_twice(base: Seq<char>, page: PageView)
    requires
        forall|k: int| 0 <= k < page.links.len() ==> joins_once(base, #[trigger] page.links[k]),
        forall|k: int|
            0 <= k < preorder(page.root).len() ==> href_joins_once(
                base,
                #[trigger] preorder(page.root)[k],
            ),
    ensures
        resolved_page(base, resolved_page(base, page)) == resolved_page(base, page),
{
    let once = resolved_page(base, page);
    lemma_element_twice(base, page.root);
    assert forall|k: int| 0 <= k < page.links.len() implies resolved(base, #[trigger] once.links[k])
        == once.links[k] by {
        lemma_resolved_twice(base, page.links[k]);
    }
    assert(resolved_page(base, once).links =~= once.links);
}

proof fn lemma_leads_nowhere(reference: Seq<char>)
    ensures
        leads_nowhere(reference) <==> (reference.len() >= 7 && ascii_lower(reference.take(7))
            == "mailto:"@) || (reference.len() >= 11 && ascii_lower(reference.take(11))
            == "javascript:"@),
{
    reveal_strlit("mailto:");
    reveal_strlit("javascript:");
    let lower = ascii_lower(reference);
    if reference.len() >= 7 {
        assert(ascii_lower(reference.take(7)) =~= lower.subrange(0, 7));
    }
    if reference.len() >= 11 {
        assert(ascii_lower(reference.take(11)) =~= lower.subrange(0, 11));
    }
}

/// Seen from a base that is a URL, a reference is made what it joins to
/// there, whatever it looks like, and stays as it is only where it joins to
/// nothing; but for those that begin, in any case, with `mailto:` or
/// `javascript:`.
pub proof fn law_references_are_joined(base: Seq<char>, reference: Seq<char>)
    requires
        url_parsed(base) is Some,
        reference.len() >= 7 ==> ascii_lower(reference.take(7)) != "mailto:"@,
        reference.len() >= 11 ==> ascii_lower(reference.take(11)) != "javascript:"@,
    ensures
        url_joined(base, reference) matches Some(url) ==> resolved(base, reference) == url,
        url_joined(base, reference) is None ==> resolved(base, reference) == reference,
{
    lemma_leads_nowhere(reference);
}

/// A reference that begins, in any case, with `mailto:` or `javascript:`
/// stays as it is, and so does every one where the base is no URL.
pub proof fn law_mail_and_scripts_stay(base: Seq<char>, reference: Seq<char>)
    requires
        url_parsed(base) is None || (reference.len() >= 7 && ascii_lower(reference.take(7))
            == "mailto:"@) || (reference.len() >= 11 && ascii_lower(reference.take(11))
            == "javascript:"@),
    ensures
        resolved(base, reference) == reference,
{
    lemma_leads_nowhere(reference);
}

proof fn lemma_resolved_node(base: Seq<char>, e: ElementView, k: int)
    requires
        0 <= k < preorder(e).len(),
    ensures
        preorder(resolved_element(base, e)).len() == preorder(e).len(),
        preorder(resolved_element(base, e))[k] == resolved_element(base, preorder(e)[k]),
    decreases e,
{
    let new = resolved_element(base, e);
    if k > 0 {
        lemma_resolved_nodes(base, e.children, k - 1);
        assert(preorder(e)[k] == preorder_all(e.children)[k - 1]);
        assert(preorder(new)[k] == preorder_all(new.children)[k - 1]);
    } else if e.children.len() > 0 {
        lemma_preorder_all_not_empty(e.children);
        lemma_resolved_nodes(base, e.children, 0);
    }
}

proof fn lemma_preorder_all_not_empty(s: Seq<ElementView>)
    requires
        s.len() > 0,
    ensures
        preorder_all(s).len() > 0,
{
    assert(preorder(s.last()).len() > 0);
}

proof fn lemma_resolved_nodes(base: Seq<char>, s: Seq<ElementView>, k: int)
    requires
        0 <= k < preorder_all(s).len(),
    ensures
        preorder_all(resolved_elements(base, s)).len() == preorder_all(s).len(),
        preorder_all(resolved_elements(base, s))[k] == resolved_element(base, preorder_all(s)[k]),
    decreases s,
{
    let head = s.drop_last();
    let new = resolved_elements(base, s);
    let before = preorder_all(head);
    assert(new.drop_last() =~= resolved_elements(base, head));
    assert(new.last() == resolved_element(base, s.last()));
    lemma_resolved_node(base, s.last(), 0);
    if head.len() > 0 {
        lemma_preorder_all_not_empty(head);
        lemma_resolved_nodes(base, head, if k < before.len() { k } else { 0 });
    }
    if k >= before.len() {
        lemma_resolved_node(base, s.last(), k - before.len());
        assert(preorder_all(s)[k] == preorder(s.last())[k - before.len()]);
        assert(preorder_all(new)[k] == preorder(new.last())[k - before.len()]);
    }
}

/// Every link of a page, and the address of every element, is made what it
/// joins to at the base, but for mail addresses and scripts.
pub proof fn law_every_address_is_joined(base: Seq<char>, page: PageView, k: int, i: int)
    requires
        url_parsed(base) is Some,
        0 <= k < page.links.len(),
        0 <= i < preorder(page.root).len(),
    ensures
        ({
            let new = resolved_page(base, page);
            let link = page.links[k];
            let href = preorder(page.root)[i].href;
            let mail = |r: Seq<char>| r.len() >= 7 && ascii_lower(r.take(7)) == "mailto:"@;
            let script = |r: Seq<char>| r.len() >= 11 && ascii_lower(r.take(11)) == "javascript:"@;
            &&& new.links.len() == page.links.len()
            &&& preorder(new.root).len() == preorder(page.root).len()
            &&& !mail(link) && !script(link) && url_joined(base, link) is Some ==> new.links[k]
                == url_joined(base, link)->0
            &&& mail(link) || script(link) || url_joined(base, link) is None ==> new.links[k]
                == link
            &&& href is None ==> preorder(new.root)[i].href is None
            &&& href matches Some(address) ==> {
                &&& !mail(address) && !script(address) && url_joined(base, address) is Some
                    ==> preorder(new.root)[i].href == url_joined(base, address)
                &&& mail(address) || script(address) || url_joined(base, address) is None
                    ==> preorder(new.root)[i].href == Some(address)
            }
        }),
{
    lemma_resolved_node(base, page.root, i);
    lemma_leads_nowhere(page.links[k]);
    if let Some(address) = preorder(page.root)[i].href {
        lemma_leads_nowhere(address);
    }
}

} // verus!
