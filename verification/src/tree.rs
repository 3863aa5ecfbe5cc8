//! The elements of a page in document order, and finding them by number or
//! by tag.
//!
//! Elements are numbered from 1 in document order: an element comes before
//! its children, and each child with all that is below it before the next.

use crate::model::{lemma_children, Element, ElementView};
use crate::seqs::{first_where, lemma_first_where, lemma_first_where_is, lemma_places, places};
use crate::text::{ascii_lower, same_ignoring_case, same_text};
use vstd::prelude::*;

verus! {

/// The element and all that is below it, in document order.
pub open spec fn preorder(e: ElementView) -> Seq<ElementView>
    decreases e,
{
    seq![e] + preorder_all(e.children)
}

/// The elements and all that is below them, in document order.
pub open spec fn preorder_all(s: Seq<ElementView>) -> Seq<ElementView>
    decreases s,
{
    if s.len() == 0 {
        Seq::empty()
    } else {
        preorder_all(s.drop_last()) + preorder(s.last())
    }
}

/// Adds the element and all that is below it to `nodes`, and for each of
/// them to `sizes` how many elements it and all below it are.
fn list_into<'a>(e: &'a Element, nodes: &mut Vec<&'a Element>, sizes: &mut Vec<usize>)
    requires
        old(nodes)@.len() == old(sizes)@.len(),
    ensures
        final(nodes).deep_view() == old(nodes).deep_view() + preorder(e.deep_view()),
        final(sizes)@.len() == final(nodes)@.len(),
        final(sizes)@.take(old(sizes)@.len() as int) == old(sizes)@,
        forall|k: int|
            old(nodes)@.len() <= k < final(nodes)@.len() ==> #[trigger] final(sizes)@[k]
                == preorder(final(nodes).deep_view()[k]).len(),
    decreases e,
{
    let at: usize = nodes.len();
    let ghost before = nodes.deep_view();
    let ghost before_sizes = sizes@;
    nodes.push(e);
    sizes.push(0);
    assert(nodes.deep_view() =~= before.push(e.deep_view()));
    proof {
        lemma_children(e);
        assert(preorder_all(e.deep_view().children.take(0)) =~= Seq::empty()) by {
            assert(e.deep_view().children.take(0) =~= Seq::empty());
        }
        assert(nodes.deep_view() =~= before + (seq![e.deep_view()] + preorder_all(
            e.deep_view().children.take(0),
        )));
    }
    for i in 0..e.children.len()
        invariant
            at == before.len() == before_sizes.len(),
            e.deep_view().children == e.children.deep_view(),
            nodes.deep_view() == before + (seq![e.deep_view()] + preorder_all(
                e.deep_view().children.take(i as int),
            )),
            sizes@.len() == nodes@.len(),
            sizes@.take(at as int) == before_sizes,
            forall|k: int|
                at < k < nodes@.len() ==> #[trigger] sizes@[k] == preorder(
                    nodes.deep_view()[k],
                ).len(),
    {
        let ghost nodes0 = nodes.deep_view();
        let ghost sizes0 = sizes@;
        list_into(&e.children[i], nodes, sizes);
        proof {
            let seen = e.deep_view().children.take(i as int);
            let now = e.deep_view().children.take(i + 1);
            assert(now.drop_last() =~= seen);
            assert(now.last() == e.children@[i as int].deep_view());
            assert(nodes.deep_view() =~= before + (seq![e.deep_view()] + preorder_all(now)));
            assert(sizes@.take(at as int) =~= before_sizes) by {
                assert(sizes@.take(sizes0.len() as int).take(at as int) =~= sizes@.take(at as int));
            }
            assert forall|k: int| at < k < nodes@.len() implies #[trigger] sizes@[k] == preorder(
                nodes.deep_view()[k],
            ).len() by {
                if k < nodes0.len() {
                    assert(sizes@[k] == sizes@.take(sizes0.len() as int)[k]);
                    assert(nodes.deep_view()[k] == nodes0[k]);
                }
            }
        }
    }
    proof {
        assert(e.deep_view().children.take(e.children@.len() as int) =~= e.deep_view().children);
        assert(nodes.deep_view()[at as int] == e.deep_view());
    }
    let size: usize = nodes.len() - at;
    sizes.set(at, size);
    assert(sizes@.take(at as int) =~= before_sizes);
}

/// The elements of a tree in document order, and of each how many elements
/// it and all below it are.
pub fn outline<'a>(root: &'a Element) -> (listed: (Vec<&'a Element>, Vec<usize>))
    ensures
        listed.0.deep_view() == preorder(root.deep_view()),
        listed.1@.len() == listed.0@.len(),
        forall|k: int|
            0 <= k < listed.0@.len() ==> #[trigger] listed.1@[k] == preorder(
                preorder(root.deep_view())[k],
            ).len(),
{
    let mut nodes: Vec<&'a Element> = Vec::new();
    let mut sizes: Vec<usize> = Vec::new();
    list_into(root, &mut nodes, &mut sizes);
    assert(nodes.deep_view() =~= preorder(root.deep_view()));
    (nodes, sizes)
}

/// The elements of a tree in document order.
pub fn nodes_of<'a>(root: &'a Element) -> (nodes: Vec<&'a Element>)
    ensures
        nodes.deep_view() == preorder(root.deep_view()),
{
    outline(root).0
}

/// Whether an element has the tag that `selector` names; `*` names every
/// tag but the document's.
pub open spec fn selects(selector: Seq<char>, e: ElementView) -> bool {
    &&& selector == "*"@ || ascii_lower(e.tag) == ascii_lower(selector)
    &&& e.tag != "document"@
}

pub open spec fn selector_test(selector: Seq<char>) -> spec_fn(ElementView) -> bool {
    |e: ElementView| selects(selector, e)
}

/// The number of the first element that `selector` names, if there is one.
pub open spec fn selected(root: ElementView, selector: Seq<char>) -> Option<int> {
    let at = first_where(preorder(root), selector_test(selector));
    if at < preorder(root).len() {
        Some(at + 1)
    } else {
        None
    }
}

/// The element with a given number.
pub open spec fn node_at(root: ElementView, id: int) -> Option<ElementView> {
    if 1 <= id <= preorder(root).len() {
        Some(preorder(root)[id - 1])
    } else {
        None
    }
}

fn is_selected(selector: &str, e: &Element) -> (yes: bool)
    ensures
        yes == selects(selector@, e.deep_view()),
{
    (same_text(selector, "*") || same_ignoring_case(e.tag.as_str(), selector)) && !same_text(
        e.tag.as_str(),
        "document",
    )
}

/// The number of the first element that `selector` names.
pub fn find_selector(root: &Element, selector: &str) -> (id: Option<usize>)
    ensures
        id is Some == selected(root.deep_view(), selector@) is Some,
        id is Some ==> id->0 == selected(root.deep_view(), selector@)->0,
{
    let nodes = nodes_of(root);
    let ghost test = selector_test(selector@);
    for i in 0..nodes.len()
        invariant
            nodes.deep_view() == preorder(root.deep_view()),
            test == selector_test(selector@),
            forall|k: int| 0 <= k < i ==> !test(#[trigger] nodes.deep_view()[k]),
    {
        if is_selected(selector, nodes[i]) {
            proof {
                assert(nodes.deep_view()[i as int] == nodes@[i as int].deep_view());
                lemma_first_where_is(preorder(root.deep_view()), test, i as int);
            }
            return Some(i + 1);
        }
        assert(nodes.deep_view()[i as int] == nodes@[i as int].deep_view());
    }
    proof {
        lemma_first_where_is(preorder(root.deep_view()), test, nodes@.len() as int);
    }
    None
}

/// The numbers of all elements that `selector` names, in document order.
pub fn find_selectors(root: &Element, selector: &str) -> (ids: Vec<usize>)
    ensures
        ids@.map_values(|id: usize| id as int) == places(
            preorder(root.deep_view()),
            selector_test(selector@),
        ),
{
    let nodes = nodes_of(root);
    let ghost test = selector_test(selector@);
    let ghost number = |id: usize| id as int;
    let mut ids: Vec<usize> = Vec::new();
    assert(ids@.map_values(number) =~= places(nodes.deep_view().take(0), test));
    for i in 0..nodes.len()
        invariant
            nodes.deep_view() == preorder(root.deep_view()),
            test == selector_test(selector@),
            number == |id: usize| id as int,
            ids@.map_values(number) == places(nodes.deep_view().take(i as int), test),
    {
        let ghost held = ids@;
        let ghost now = nodes.deep_view().take(i + 1);
        assert(now.drop_last() =~= nodes.deep_view().take(i as int));
        assert(now.last() == nodes@[i as int].deep_view());
        if is_selected(selector, nodes[i]) {
            ids.push(i + 1);
            assert(ids@.map_values(number) =~= held.map_values(number).push(i + 1));
        }
    }
    assert(nodes.deep_view().take(nodes@.len() as int) =~= nodes.deep_view());
    ids
}

/// The element with a given number.
pub fn find_node<'a>(root: &'a Element, id: usize) -> (found: Option<&'a Element>)
    ensures
        found.deep_view() == node_at(root.deep_view(), id as int),
{
    let nodes = nodes_of(root);
    if id >= 1 && id <= nodes.len() {
        assert(nodes.deep_view()[id - 1] == nodes@[id - 1].deep_view());
        Some(nodes[id - 1])
    } else {
        None
    }
}

/// A selector finds an element that it names, and none before it is named.
pub proof fn law_selected_is_the_first_named(root: ElementView, selector: Seq<char>)
    ensures
        match selected(root, selector) {
            Some(id) => {
                &&& node_at(root, id) is Some
                &&& selects(selector, node_at(root, id)->0)
                &&& forall|k: int|
                    1 <= k < id ==> !selects(selector, (#[trigger] node_at(root, k))->0)
            },
            None => forall|k: int|
                1 <= k <= preorder(root).len() ==> !selects(
                    selector,
                    (#[trigger] node_at(root, k))->0,
                ),
        },
{
    let test = selector_test(selector);
    lemma_first_where(preorder(root), test);
    assert forall|k: int| 1 <= k <= first_where(preorder(root), test) implies !selects(
        selector,
        (#[trigger] node_at(root, k))->0,
    ) by {
        assert(!test(preorder(root)[k - 1]));
    }
}

/// Asking for all elements that a selector names gives, in front, the one
/// that asking for the first gives.
pub proof fn law_first_of_all_selected(root: ElementView, selector: Seq<char>)
    ensures
        ({
            let all = places(preorder(root), selector_test(selector));
            match selected(root, selector) {
                Some(id) => all.len() > 0 && all[0] == id,
                None => all.len() == 0,
            }
        }),
{
    let test = selector_test(selector);
    let nodes = preorder(root);
    let all = places(nodes, test);
    lemma_first_where(nodes, test);
    lemma_places(nodes, test);
    if let Some(id) = selected(root, selector) {
        assert(test(nodes[id - 1]));
        assert(all.contains(id));
        let k = choose|k: int| 0 <= k < all.len() && all[k] == id;
        assert(all[0] <= all[k]);
        assert(test(nodes[all[0] - 1]));
    } else if all.len() > 0 {
        assert(test(nodes[all[0] - 1]));
    }
}

proof fn lemma_subtree(e: ElementView, k: int)
    requires
        0 <= k < preorder(e).len(),
    ensures
        ({
            let size = preorder(preorder(e)[k]).len() as int;
            &&& size >= 1
            &&& k + size <= preorder(e).len()
            &&& preorder(e).subrange(k, k + size) == preorder(preorder(e)[k])
        }),
    decreases e,
{
    if k == 0 {
        assert(preorder(e)[0] == e);
        assert(preorder(e).subrange(0, preorder(e).len() as int) =~= preorder(e));
    } else {
        lemma_subtree_all(e.children, k - 1);
        let below = preorder_all(e.children);
        assert(preorder(e)[k] == below[k - 1]);
        let size = preorder(below[k - 1]).len() as int;
        assert(preorder(e).subrange(k, k + size) =~= below.subrange(k - 1, k - 1 + size));
    }
}

proof fn lemma_subtree_all(s: Seq<ElementView>, k: int)
    requires
        0 <= k < preorder_all(s).len(),
    ensures
        ({
            let size = preorder(preorder_all(s)[k]).len() as int;
            &&& size >= 1
            &&& k + size <= preorder_all(s).len()
            &&& preorder_all(s).subrange(k, k + size) == preorder(preorder_all(s)[k])
        }),
    decreases s,
{
    let head = preorder_all(s.drop_last());
    let last = preorder(s.last());
    if k < head.len() {
        lemma_subtree_all(s.drop_last(), k);
        let size = preorder(head[k]).len() as int;
        assert(preorder_all(s)[k] == head[k]);
        assert(preorder_all(s).subrange(k, k + size) =~= head.subrange(k, k + size));
    } else {
        let j = k - head.len();
        lemma_subtree(s.last(), j);
        let size = preorder(last[j]).len() as int;
        assert(preorder_all(s)[k] == last[j]);
        assert(preorder_all(s).subrange(k, k + size) =~= last.subrange(j, j + size));
    }
}

/// Whether element number `a` is element number `id` or an element that it
/// is below: the numbers of an element and of all below it follow one
/// another.
pub open spec fn encloses(root: ElementView, a: int, id: int) -> bool {
    &&& 1 <= a <= id <= preorder(root).len()
    &&& id < a + preorder(preorder(root)[a - 1]).len()
}

/// The numbers from `a` on, as many as there are elements in its subtree,
/// are those of the elements of that subtree, in the subtree's own order.
pub proof fn law_numbers_of_a_subtree(root: ElementView, a: int, id: int)
    requires
        1 <= a <= preorder(root).len(),
        a <= id < a + preorder(preorder(root)[a - 1]).len(),
    ensures
        encloses(root, a, id),
        node_at(root, id) == node_at(preorder(root)[a - 1], id - a + 1),
{
    lemma_subtree(root, a - 1);
    let below = preorder(preorder(root)[a - 1]);
    assert(preorder(root).subrange(a - 1, a - 1 + below.len())[id - a] == below[id - a]);
}

pub open spec fn is_form(e: ElementView) -> bool {
    e.tag == "form"@
}

/// The number of the closest `<form>` at or above element number `id`,
/// looked for from number `a` downwards.
pub open spec fn form_from(root: ElementView, id: int, a: int) -> Option<int>
    decreases a,
{
    if a < 1 {
        None
    } else if encloses(root, a, id) && is_form(preorder(root)[a - 1]) {
        Some(a)
    } else {
        form_from(root, id, a - 1)
    }
}

/// The number of the closest `<form>` at or above element number `id`.
pub open spec fn enclosing_form(root: ElementView, id: int) -> Option<int> {
    form_from(root, id, id)
}

/// The form that an element is in is a form that encloses it, and no form
/// with a higher number does.
pub proof fn law_enclosing_form_is_the_closest(root: ElementView, id: int)
    ensures
        match enclosing_form(root, id) {
            Some(a) => {
                &&& encloses(root, a, id)
                &&& is_form(preorder(root)[a - 1])
                &&& forall|b: int|
                    a < b && #[trigger] encloses(root, b, id) ==> !is_form(preorder(root)[b - 1])
            },
            None => forall|b: int|
                #[trigger] encloses(root, b, id) ==> !is_form(preorder(root)[b - 1]),
        },
{
    lemma_form_from(root, id, id);
}

proof fn lemma_form_from(root: ElementView, id: int, from: int)
    ensures
        match form_from(root, id, from) {
            Some(a) => {
                &&& a <= from
                &&& encloses(root, a, id)
                &&& is_form(preorder(root)[a - 1])
                &&& forall|b: int|
                    a < b <= from && #[trigger] encloses(root, b, id) ==> !is_form(
                        preorder(root)[b - 1],
                    )
            },
            None => forall|b: int|
                b <= from && #[trigger] encloses(root, b, id) ==> !is_form(preorder(root)[b - 1]),
        },
    decreases from,
{
    if from >= 1 && !(encloses(root, from, id) && is_form(preorder(root)[from - 1])) {
        lemma_form_from(root, id, from - 1);
    }
}

/// The closest `<form>` at or above an element.
pub fn find_enclosing_form<'a>(root: &'a Element, id: usize) -> (form: Option<&'a Element>)
    ensures
        form.deep_view() == match enclosing_form(root.deep_view(), id as int) {
            Some(a) => Some(preorder(root.deep_view())[a - 1]),
            None => None,
        },
{
    let (nodes, sizes) = outline(root);
    let ghost tree = root.deep_view();
    proof {
        if id > nodes@.len() {
            lemma_form_from(tree, id as int, id as int);
        }
    }
    if id > nodes.len() {
        return None;
    }
    let mut a: usize = id;
    while a >= 1
        invariant
            tree == root.deep_view(),
            nodes.deep_view() == preorder(tree),
            sizes@.len() == nodes@.len(),
            forall|k: int|
                0 <= k < nodes@.len() ==> #[trigger] sizes@[k] == preorder(preorder(tree)[k]).len(),
            a <= id <= nodes@.len(),
            enclosing_form(tree, id as int) == form_from(tree, id as int, a as int),
        decreases a,
    {
        assert(nodes.deep_view()[a - 1] == nodes@[a - 1].deep_view());
        if same_text(nodes[a - 1].tag.as_str(), "form") && id - a < sizes[a - 1] {
            return Some(nodes[a - 1]);
        }
        a = a - 1;
    }
    None
}

/// The tree with the value of the element at place `at`, counted from 0 in
/// document order, set to `value`.
pub open spec fn with_value(e: ElementView, at: int, value: Seq<char>) -> ElementView
    decreases e,
{
    if at == 0 {
        ElementView { value: Some(value), ..e }
    } else {
        ElementView { children: with_value_all(e.children, at - 1, value), ..e }
    }
}

pub open spec fn with_value_all(s: Seq<ElementView>, at: int, value: Seq<char>) -> Seq<ElementView>
    decreases s,
{
    if s.len() == 0 {
        s
    } else {
        let before = preorder_all(s.drop_last()).len();
        if at < before {
            with_value_all(s.drop_last(), at, value).push(s.last())
        } else {
            s.drop_last().push(with_value(s.last(), at - before, value))
        }
    }
}

/// The element alone, without what is below it.
pub open spec fn alone(e: ElementView) -> ElementView {
    ElementView { children: Seq::empty(), ..e }
}

/// Setting one element's value leaves every number where it was, and every
/// element as it was but for that one value.
pub proof fn law_with_value_changes_one_value(e: ElementView, at: int, value: Seq<char>)
    requires
        0 <= at < preorder(e).len(),
    ensures
        preorder(with_value(e, at, value)).len() == preorder(e).len(),
        forall|k: int| #![trigger preorder(e)[k]]
            0 <= k < preorder(e).len() && k != at ==> alone(preorder(with_value(e, at, value))[k])
                == alone(preorder(e)[k]),
        alone(preorder(with_value(e, at, value))[at]) == (ElementView {
            value: Some(value),
            ..alone(preorder(e)[at])
        }),
    decreases e,
{
    let new = with_value(e, at, value);
    if at == 0 {
        assert(new.children == e.children);
        assert forall|k: int| #![trigger preorder(e)[k]]
            0 <= k < preorder(e).len() && k != at implies alone(preorder(new)[k]) == alone(
            preorder(e)[k],
        ) by {
            assert(preorder(new)[k] == preorder_all(e.children)[k - 1]);
            assert(preorder(e)[k] == preorder_all(e.children)[k - 1]);
        }
    } else {
        lemma_with_value_all(e.children, at - 1, value);
        assert forall|k: int| #![trigger preorder(e)[k]]
            0 <= k < preorder(e).len() && k != at implies alone(preorder(new)[k]) == alone(
            preorder(e)[k],
        ) by {
            if k > 0 {
                assert(preorder(new)[k] == preorder_all(new.children)[k - 1]);
                assert(preorder(e)[k] == preorder_all(e.children)[k - 1]);
            }
        }
        assert(preorder(new)[at] == preorder_all(new.children)[at - 1]);
        assert(preorder(e)[at] == preorder_all(e.children)[at - 1]);
    }
}

proof fn lemma_with_value_all(s: Seq<ElementView>, at: int, value: Seq<char>)
    requires
        0 <= at < preorder_all(s).len(),
    ensures
        preorder_all(with_value_all(s, at, value)).len() == preorder_all(s).len(),
        forall|k: int| #![trigger preorder_all(s)[k]]
            0 <= k < preorder_all(s).len() && k != at ==> alone(
                preorder_all(with_value_all(s, at, value))[k],
            ) == alone(preorder_all(s)[k]),
        alone(preorder_all(with_value_all(s, at, value))[at]) == (ElementView {
            value: Some(value),
            ..alone(preorder_all(s)[at])
        }),
    decreases s,
{
    let head = s.drop_last();
    let before = preorder_all(head).len();
    let new = with_value_all(s, at, value);
    if at < before {
        lemma_with_value_all(head, at, value);
        let new_head = with_value_all(head, at, value);
        assert(new.drop_last() =~= new_head);
        assert forall|k: int| #![trigger preorder_all(s)[k]]
            0 <= k < preorder_all(s).len() && k != at implies alone(preorder_all(new)[k]) == alone(
            preorder_all(s)[k],
        ) by {
            if k < before {
                assert(preorder_all(s)[k] == preorder_all(head)[k]);
                assert(preorder_all(new)[k] == preorder_all(new_head)[k]);
            }
        }
        assert(preorder_all(s)[at] == preorder_all(head)[at]);
        assert(preorder_all(new)[at] == preorder_all(new_head)[at]);
    } else {
        law_with_value_changes_one_value(s.last(), at - before, value);
        let new_last = with_value(s.last(), at - before, value);
        assert(new.drop_last() =~= head);
        assert(new.last() == new_last);
        assert forall|k: int| #![trigger preorder_all(s)[k]]
            0 <= k < preorder_all(s).len() && k != at implies alone(preorder_all(new)[k]) == alone(
            preorder_all(s)[k],
        ) by {
            if k >= before {
                assert(preorder_all(s)[k] == preorder(s.last())[k - before]);
                assert(preorder_all(new)[k] == preorder(new_last)[k - before]);
            }
        }
        assert(preorder_all(s)[at] == preorder(s.last())[at - before]);
        assert(preorder_all(new)[at] == preorder(new_last)[at - before]);
    }
}

/// Sets the value of the element at place `at`, counted from 0 in document
/// order.
pub fn set_value(e: &mut Element, at: usize, value: String)
    requires
        at < preorder(old(e).deep_view()).len(),
    ensures
        final(e).deep_view() == with_value(old(e).deep_view(), at as int, value@),
    decreases *old(e),
{
    let ghost tree = e.deep_view();
    proof {
        lemma_children(e);
    }
    if at == 0 {
        e.value = Some(value);
        proof {
            lemma_children(e);
        }
        return;
    }
    let mut rest: usize = at - 1;
    let mut i: usize = 0;
    while i < e.children.len()
        invariant
            *e == *old(e),
            tree == e.deep_view(),
            tree.children == e.children.deep_view(),
            i <= e.children@.len(),
            at >= 1,
            rest + preorder_all(tree.children.take(i as int)).len() == at - 1,
            at - 1 < preorder_all(tree.children).len(),
        decreases e.children@.len() - i,
    {
        let size: usize = nodes_of(&e.children[i]).len();
        let ghost seen = tree.children.take(i as int);
        let ghost now = tree.children.take(i + 1);
        proof {
            assert(now.drop_last() =~= seen);
            assert(now.last() == e.children@[i as int].deep_view());
            assert(preorder(now.last()).len() == size);
        }
        if rest < size {
            let ghost held = e.children@;
            set_value(&mut e.children[i], rest, value);
            proof {
                lemma_children(e);
                lemma_with_value_all_at(tree.children, i as int, at - 1, value@);
                assert(e.deep_view().children =~= with_value_all(tree.children, at - 1, value@));
            }
            return;
        }
        rest = rest - size;
        i = i + 1;
    }
    assert(tree.children.take(i as int) =~= tree.children);
}

proof fn lemma_with_value_all_at(s: Seq<ElementView>, i: int, at: int, value: Seq<char>)
    requires
        0 <= i < s.len(),
        preorder_all(s.take(i)).len() <= at < preorder_all(s.take(i + 1)).len(),
    ensures
        with_value_all(s, at, value) == s.update(
            i,
            with_value(s[i], at - preorder_all(s.take(i)).len(), value),
        ),
    decreases s.len(),
{
    let head = s.drop_last();
    if i == s.len() - 1 {
        assert(s.take(i) =~= head);
        assert(with_value_all(s, at, value) =~= s.update(
            i,
            with_value(s[i], at - preorder_all(s.take(i)).len(), value),
        ));
    } else {
        assert(head.take(i) =~= s.take(i));
        assert(head.take(i + 1) =~= s.take(i + 1));
        lemma_preorder_all_grows(head, i + 1);
        lemma_with_value_all_at(head, i, at, value);
        assert(with_value_all(s, at, value) =~= s.update(
            i,
            with_value(s[i], at - preorder_all(s.take(i)).len(), value),
        ));
    }
}

/// The first of some trees have no more nodes than all of them.
pub proof fn lemma_preorder_all_grows(s: Seq<ElementView>, n: int)
    requires
        0 <= n <= s.len(),
    ensures
        preorder_all(s.take(n)).len() <= preorder_all(s).len(),
    decreases s.len(),
{
    if n == s.len() {
        assert(s.take(n) =~= s);
    } else {
        lemma_preorder_all_grows(s.drop_last(), n);
        assert(s.drop_last().take(n) =~= s.take(n));
    }
}

/// Setting a value twice is setting the later one.
pub proof fn law_later_value_counts(
    e: ElementView,
    at: int,
    first: Seq<char>,
    second: Seq<char>,
)
    requires
        0 <= at < preorder(e).len(),
    ensures
        with_value(with_value(e, at, first), at, second) == with_value(e, at, second),
    decreases e,
{
    if at > 0 {
        lemma_later_value_counts_all(e.children, at - 1, first, second);
    }
}

proof fn lemma_later_value_counts_all(
    s: Seq<ElementView>,
    at: int,
    first: Seq<char>,
    second: Seq<char>,
)
    requires
        0 <= at < preorder_all(s).len(),
    ensures
        with_value_all(with_value_all(s, at, first), at, second) == with_value_all(s, at, second),
    decreases s,
{
    let head = s.drop_last();
    let before = preorder_all(head).len();
    let once = with_value_all(s, at, first);
    if at < before {
        lemma_later_value_counts_all(head, at, first, second);
        lemma_with_value_all(head, at, first);
        assert(once.drop_last() =~= with_value_all(head, at, first));
        assert(once.last() == s.last());
    } else {
        law_later_value_counts(s.last(), at - before, first, second);
        assert(once.drop_last() =~= head);
        assert(once.last() == with_value(s.last(), at - before, first));
    }
}

/// Setting the value that an element has already changes nothing.
pub proof fn law_own_value_changes_nothing(e: ElementView, at: int, value: Seq<char>)
    requires
        0 <= at < preorder(e).len(),
        preorder(e)[at].value == Some(value),
    ensures
        with_value(e, at, value) == e,
    decreases e,
{
    if at > 0 {
        assert(preorder(e)[at] == preorder_all(e.children)[at - 1]);
        lemma_own_value_changes_nothing_all(e.children, at - 1, value);
    }
}

proof fn lemma_own_value_changes_nothing_all(s: Seq<ElementView>, at: int, value: Seq<char>)
    requires
        0 <= at < preorder_all(s).len(),
        preorder_all(s)[at].value == Some(value),
    ensures
        with_value_all(s, at, value) == s,
    decreases s,
{
    let head = s.drop_last();
    let before = preorder_all(head).len();
    if at < before {
        assert(preorder_all(s)[at] == preorder_all(head)[at]);
        lemma_own_value_changes_nothing_all(head, at, value);
    } else {
        assert(preorder_all(s)[at] == preorder(s.last())[at - before]);
        law_own_value_changes_nothing(s.last(), at - before, value);
    }
    assert(with_value_all(s, at, value) =~= s);
}

/// A selector names the elements with its tag, in any case, and `*` names
/// all; but never the document.
pub proof fn law_selector_names_tags(selector: Seq<char>, e: ElementView)
    ensures
        e.tag == "document"@ ==> !selects(selector, e),
        e.tag != "document"@ && selector == "*"@ ==> selects(selector, e),
        e.tag != "document"@ && ascii_lower(e.tag) == ascii_lower(selector) ==> selects(
            selector,
            e,
        ),
        selector != "*"@ && ascii_lower(e.tag) != ascii_lower(selector) ==> !selects(selector, e),
{
}

/// Asking for all elements that a selector names gives the numbers of those
/// elements, from 1 on and in document order, and no other.
pub proof fn law_all_named_are_selected(root: ElementView, selector: Seq<char>, id: int)
    ensures
        places(preorder(root), selector_test(selector)).contains(id) <==> 1 <= id <= preorder(
            root,
        ).len() && selects(selector, preorder(root)[id - 1]),
        forall|j: int, k: int|
            0 <= j < k < places(preorder(root), selector_test(selector)).len() ==> places(
                preorder(root),
                selector_test(selector),
            )[j] < places(preorder(root), selector_test(selector))[k],
{
    let test = selector_test(selector);
    let nodes = preorder(root);
    lemma_places(nodes, test);
    if places(nodes, test).contains(id) {
        let k = choose|k: int| 0 <= k < places(nodes, test).len() && places(nodes, test)[k] == id;
        assert(test(nodes[places(nodes, test)[k] - 1]));
    }
    if 1 <= id <= nodes.len() && selects(selector, nodes[id - 1]) {
        assert(test(nodes[id - 1]));
    }
}

/// The elements of a tree are numbered from 1 on in document order: first the
/// root, then the first child with all below it, then the next.
pub proof fn law_numbers_follow_the_document(root: ElementView, k: int)
    requires
        0 <= k < root.children.len(),
    ensures
        node_at(root, 1) == Some(root),
        ({
            let before = preorder_all(root.children.take(k)).len();
            node_at(root, 2 + before as int) == Some(root.children[k])
        }),
        preorder_all(root.children.take(0)).len() == 0,
        preorder_all(root.children.take(k + 1)).len() == preorder_all(root.children.take(k)).len()
            + preorder(root.children[k]).len(),
        preorder(root).len() == 1 + preorder_all(
            root.children.take(root.children.len() as int),
        ).len(),
{
    let s = root.children;
    assert(s.take(0) =~= Seq::empty());
    assert(s.take(s.len() as int) =~= s);
    assert(s.take(k + 1).drop_last() =~= s.take(k));
    assert(s.take(k + 1).last() == s[k]);
    lemma_child_number(s, k);
    let before = preorder_all(s.take(k)).len() as int;
    assert(preorder(root)[1 + before] == preorder_all(s)[before]);
}

proof fn lemma_child_number(s: Seq<ElementView>, k: int)
    requires
        0 <= k < s.len(),
    ensures
        preorder_all(s.take(k)).len() < preorder_all(s).len(),
        preorder_all(s)[preorder_all(s.take(k)).len() as int] == s[k],
    decreases s.len(),
{
    if k < s.len() - 1 {
        lemma_child_number(s.drop_last(), k);
        assert(s.drop_last().take(k) =~= s.take(k));
    } else {
        assert(s.take(k) =~= s.drop_last());
        assert(preorder(s.last())[0] == s.last());
    }
}

} // verus!
