//! A minimal block layout: a fixed style per tag, text wrapped at white
//! space, elements stacked one below the other.
//!
//! Every length is a whole number of tenths of a pixel, so that all of this
//! is exact: font sizes and margins are whole pixels, a line is 1.3 font
//! sizes high.

use crate::model::{lemma_children, Element, ElementView, Layout, Page, PageView};
use crate::text::{
    is_word, join, lemma_words_are_words, normalized, same_text, split_words, words,
};
use crate::tree::{preorder, preorder_all};
use vstd::prelude::*;

verus! {

/// How a tag is shown: font size and margin in pixels.
#[derive(Debug, Clone, Copy, PartialEq, Eq, Structural)]
pub struct TagStyle {
    pub font_size: u64,
    pub margin: u64,
    pub bold: bool,
}

/// The style of a tag. There is no other source of style: nothing is read
/// from the page. `margin` applies to both the top and the bottom of a block.
pub open spec fn style_of(tag: Seq<char>) -> TagStyle {
    if tag == "h1"@ {
        TagStyle { font_size: 32, margin: 24, bold: true }
    } else if tag == "h2"@ {
        TagStyle { font_size: 24, margin: 20, bold: true }
    } else if tag == "h3"@ {
        TagStyle { font_size: 19, margin: 18, bold: true }
    } else if tag == "h4"@ {
        TagStyle { font_size: 16, margin: 16, bold: true }
    } else if tag == "h5"@ {
        TagStyle { font_size: 13, margin: 14, bold: true }
    } else if tag == "h6"@ {
        TagStyle { font_size: 11, margin: 14, bold: true }
    } else if tag == "p"@ || tag == "blockquote"@ || tag == "ul"@ || tag == "ol"@ {
        TagStyle { font_size: 16, margin: 16, bold: false }
    } else if tag == "li"@ {
        TagStyle { font_size: 16, margin: 4, bold: false }
    } else if tag == "strong"@ || tag == "b"@ {
        TagStyle { font_size: 16, margin: 0, bold: true }
    } else {
        TagStyle { font_size: 16, margin: 0, bold: false }
    }
}

/// The style of a tag.
pub fn tag_style(tag: &str) -> (style: TagStyle)
    ensures
        style == style_of(tag@),
{
    if same_text(tag, "h1") {
        TagStyle { font_size: 32, margin: 24, bold: true }
    } else if same_text(tag, "h2") {
        TagStyle { font_size: 24, margin: 20, bold: true }
    } else if same_text(tag, "h3") {
        TagStyle { font_size: 19, margin: 18, bold: true }
    } else if same_text(tag, "h4") {
        TagStyle { font_size: 16, margin: 16, bold: true }
    } else if same_text(tag, "h5") {
        TagStyle { font_size: 13, margin: 14, bold: true }
    } else if same_text(tag, "h6") {
        TagStyle { font_size: 11, margin: 14, bold: true }
    } else if same_text(tag, "p") || same_text(tag, "blockquote") || same_text(tag, "ul")
        || same_text(tag, "ol") {
        TagStyle { font_size: 16, margin: 16, bold: false }
    } else if same_text(tag, "li") {
        TagStyle { font_size: 16, margin: 4, bold: false }
    } else if same_text(tag, "strong") || same_text(tag, "b") {
        TagStyle { font_size: 16, margin: 0, bold: true }
    } else {
        TagStyle { font_size: 16, margin: 0, bold: false }
    }
}

/// The height of a line, in tenths of a pixel: 1.3 font sizes.
pub open spec fn line_height(font_size: int) -> int {
    13 * font_size
}

/// The estimated width of a character, in hundredths of a pixel: 0.55 font
/// sizes, but no less than one pixel.
pub open spec fn char_width(font_size: int) -> int {
    if 55 * font_size < 100 {
        100
    } else {
        55 * font_size
    }
}

/// How many characters of a font size stand in a width, given in tenths of a
/// pixel; at least one.
pub open spec fn chars_per_line(width: int, font_size: int) -> int {
    let whole = (10 * width) / char_width(font_size);
    if whole < 1 {
        1
    } else {
        whole
    }
}

/// The lines that words fill when each is put behind the one before it, with
/// a space between, as long as the line stays within `limit` characters. A
/// word longer than that has a line of its own.
pub open spec fn filled_lines(parts: Seq<Seq<char>>, limit: int) -> Seq<Seq<char>>
    decreases parts.len(),
{
    if parts.len() == 0 {
        Seq::empty()
    } else {
        let before = filled_lines(parts.drop_last(), limit);
        let word = parts.last();
        if before.len() == 0 || before.last().len() + 1 + word.len() > limit {
            before.push(word)
        } else {
            before.drop_last().push(before.last() + seq![' '] + word)
        }
    }
}

/// The lines of a text: one empty line, if it has no words.
pub open spec fn wrapped(text: Seq<char>, limit: int) -> Seq<Seq<char>> {
    if words(text).len() == 0 {
        seq![Seq::empty()]
    } else {
        filled_lines(words(text), limit)
    }
}

/// Wraps a text into lines that fit within a width, given in tenths of a
/// pixel, at a font size in pixels. Breaks at white space only: a single
/// word longer than the width is not broken, it overflows its line.
pub fn wrap_text(text: &str, available_width: u64, font_size: u64) -> (lines: Vec<String>)
    ensures
        lines.deep_view() == wrapped(
            text@,
            chars_per_line(available_width as int, font_size as int),
        ),
{
    let font: u128 = font_size as u128;
    let char_hundredths: u128 = if 55 * font < 100 { 100 } else { 55 * font };
    let whole: u128 = (10 * (available_width as u128)) / char_hundredths;
    let limit: u128 = if whole < 1 { 1 } else { whole };
    let parts = split_words(text);
    let ghost listed = parts.deep_view();
    let mut lines: Vec<String> = Vec::new();
    let mut current = String::new();
    assert(listed.take(0) =~= Seq::empty());
    proof {
        lemma_words_are_words(text@);
    }
    for i in 0..parts.len()
        invariant
            listed == parts.deep_view(),
            listed == words(text@),
            forall|k: int| 0 <= k < listed.len() ==> is_word(#[trigger] listed[k]),
            filled_lines(listed.take(i as int), limit as int) == if current@.len() == 0 {
                lines.deep_view()
            } else {
                lines.deep_view().push(current@)
            },
            (current@.len() == 0) == (i == 0),
            i == 0 ==> lines@.len() == 0,
    {
        let word = &parts[i];
        let ghost held = lines.deep_view();
        let ghost line = current@;
        proof {
            assert(listed.take(i + 1).drop_last() =~= listed.take(i as int));
            assert(listed.take(i + 1).last() == word@);
            assert(is_word(listed[i as int]));
            assert(held.push(line).drop_last() =~= held);
        }
        if current.as_str().is_empty() {
            current.append(word.as_str());
            assert(current@ =~= word@);
            assert(lines.deep_view() =~= Seq::empty());
        } else {
            let length: u128 = current.as_str().unicode_len() as u128 + 1
                + word.as_str().unicode_len() as u128;
            if length > limit {
                lines.push(current);
                assert(lines.deep_view() =~= held.push(line));
                current = word.clone();
            } else {
                current.push(' ');
                current.append(word.as_str());
                assert(current@ =~= line + seq![' '] + word@);
            }
        }
    }
    assert(listed.take(listed.len() as int) =~= listed);
    if parts.len() == 0 {
        lines.push(String::new());
        assert(lines.deep_view() =~= seq![Seq::<char>::empty()]);
    } else {
        let ghost held = lines.deep_view();
        let ghost line = current@;
        lines.push(current);
        assert(lines.deep_view() =~= held.push(line));
    }
    lines
}

/// The height of an element's content: of its lines, or of the stack of its
/// children where it has any.
pub open spec fn content_height(e: ElementView, width: int) -> int
    decreases e, 0int,
{
    if e.children.len() > 0 {
        stack_height(e.children, width)
    } else if e.text.len() == 0 {
        0
    } else {
        let font_size = style_of(e.tag).font_size as int;
        wrapped(e.text, chars_per_line(width, font_size)).len() * line_height(font_size)
    }
}

/// The height that an element takes up, its margins included.
pub open spec fn extent(e: ElementView, width: int) -> int
    decreases e, 1int,
{
    content_height(e, width) + 20 * style_of(e.tag).margin
}

/// The height that elements take up when stacked.
pub open spec fn stack_height(s: Seq<ElementView>, width: int) -> int
    decreases s, 0int,
{
    if s.len() == 0 {
        0
    } else {
        stack_height(s.drop_last(), width) + extent(s.last(), width)
    }
}

/// The element laid out with its top at `y`: its box begins below its top
/// margin, and its children are stacked from the top of that box on.
pub open spec fn laid_out(e: ElementView, y: int, width: int) -> ElementView
    decreases e,
{
    let top = y + 10 * style_of(e.tag).margin;
    ElementView {
        layout: Some(
            Layout {
                x: 0,
                y: top as u64,
                width: width as u64,
                height: content_height(e, width) as u64,
            },
        ),
        children: stacked(e.children, top, width),
        ..e
    }
}

/// The elements laid out one below the other, the first with its top at `y`.
pub open spec fn stacked(s: Seq<ElementView>, y: int, width: int) -> Seq<ElementView>
    decreases s,
{
    if s.len() == 0 {
        Seq::empty()
    } else {
        stacked(s.drop_last(), y, width).push(
            laid_out(s.last(), y + stack_height(s.drop_last(), width), width),
        )
    }
}

/// The width that a viewport is laid out at: at least one pixel.
pub open spec fn layout_width(viewport_width: int) -> int {
    if viewport_width < 10 {
        10
    } else {
        viewport_width
    }
}

proof fn lemma_heights(e: ElementView, width: int)
    ensures
        0 <= content_height(e, width) <= extent(e, width),
    decreases e,
{
    if e.children.len() > 0 {
        lemma_stack_height(e.children, width);
    } else if e.text.len() > 0 {
        let font_size = style_of(e.tag).font_size as int;
        let lines = wrapped(e.text, chars_per_line(width, font_size)).len();
        assert(lines * line_height(font_size) >= 0) by (nonlinear_arith)
            requires
                lines >= 0,
                line_height(font_size) >= 0,
        ;
    }
}

proof fn lemma_stack_height(s: Seq<ElementView>, width: int)
    ensures
        0 <= stack_height(s, width),
        forall|n: int|
            0 <= n <= s.len() ==> 0 <= #[trigger] stack_height(s.take(n), width) <= stack_height(
                s,
                width,
            ),
    decreases s,
{
    if s.len() > 0 {
        lemma_stack_height(s.drop_last(), width);
        lemma_heights(s.last(), width);
        assert forall|n: int| 0 <= n <= s.len() implies 0 <= #[trigger] stack_height(
            s.take(n),
            width,
        ) <= stack_height(s, width) by {
            if n < s.len() {
                assert(s.take(n) =~= s.drop_last().take(n));
            } else {
                assert(s.take(n) =~= s);
            }
        }
    } else {
        assert forall|n: int| 0 <= n <= s.len() implies 0 <= #[trigger] stack_height(
            s.take(n),
            width,
        ) <= stack_height(s, width) by {
            assert(s.take(n) =~= s);
        }
    }
}

/// The height of the lines of an element without children.
fn own_height(e: &Element, width: u64) -> (height: Option<u64>)
    requires
        e.deep_view().children.len() == 0,
    ensures
        height is Some == (content_height(e.deep_view(), width as int) <= u64::MAX),
        height is Some ==> height->0 == content_height(e.deep_view(), width as int),
{
    if e.text.as_str().is_empty() {
        return Some(0);
    }
    let font_size: u64 = tag_style(e.tag.as_str()).font_size;
    let lines = wrap_text(e.text.as_str(), width, font_size);
    let count: u128 = lines.len() as u128;
    let line: u128 = (13 * font_size) as u128;
    assert(count * line <= 0xffff_ffff_ffff_ffff * 416) by (nonlinear_arith)
        requires
            count <= 0xffff_ffff_ffff_ffff,
            line <= 416,
    ;
    let height: u128 = count * line;
    if height <= u64::MAX as u128 {
        Some(height as u64)
    } else {
        None
    }
}

/// The height that an element takes up, where it can be written down.
pub fn measure(e: &Element, width: u64) -> (height: Option<u64>)
    ensures
        height is Some == (extent(e.deep_view(), width as int) <= u64::MAX),
        height is Some ==> height->0 == extent(e.deep_view(), width as int),
    decreases e,
{
    let ghost tree = e.deep_view();
    proof {
        lemma_children(e);
        lemma_heights(tree, width as int);
        lemma_stack_height(tree.children, width as int);
    }
    let margin: u64 = tag_style(e.tag.as_str()).margin;
    if e.children.len() == 0 {
        return match own_height(e, width) {
            Some(height) => height.checked_add(20 * margin),
            None => None,
        };
    }
    let mut total: u64 = 20 * margin;
    assert(tree.children.take(0) =~= Seq::empty());
    for i in 0..e.children.len()
        invariant
            tree == e.deep_view(),
            tree.children == e.children.deep_view(),
            tree.children.len() > 0,
            margin == style_of(tree.tag).margin,
            total == stack_height(tree.children.take(i as int), width as int) + 20 * margin,
            forall|n: int|
                0 <= n <= tree.children.len() ==> 0 <= #[trigger] stack_height(
                    tree.children.take(n),
                    width as int,
                ) <= stack_height(tree.children, width as int),
    {
        let ghost now = tree.children.take(i + 1);
        proof {
            assert(now.drop_last() =~= tree.children.take(i as int));
            assert(now.last() == e.children@[i as int].deep_view());
            assert(stack_height(now, width as int) <= stack_height(tree.children, width as int));
        }
        match measure(&e.children[i], width) {
            Some(height) => {
                match total.checked_add(height) {
                    Some(sum) => {
                        total = sum;
                    },
                    None => {
                        return None;
                    },
                }
            },
            None => {
                return None;
            },
        }
    }
    assert(tree.children.take(tree.children.len() as int) =~= tree.children);
    Some(total)
}

proof fn lemma_stacked(s: Seq<ElementView>, y: int, width: int)
    ensures
        stacked(s, y, width).len() == s.len(),
        forall|k: int|
            0 <= k < s.len() ==> #[trigger] stacked(s, y, width)[k] == laid_out(
                s[k],
                y + stack_height(s.take(k), width),
                width,
            ),
    decreases s.len(),
{
    if s.len() > 0 {
        lemma_stacked(s.drop_last(), y, width);
        assert forall|k: int| 0 <= k < s.len() implies #[trigger] stacked(s, y, width)[k]
            == laid_out(s[k], y + stack_height(s.take(k), width), width) by {
            if k < s.len() - 1 {
                assert(s.drop_last().take(k) =~= s.take(k));
                assert(stacked(s, y, width)[k] == stacked(s.drop_last(), y, width)[k]);
            } else {
                assert(s.take(k) =~= s.drop_last());
            }
        }
    }
}

/// Lays out `element` with its top at `y`, and returns the vertical space
/// that it takes up, including its own margins.
fn layout_element(element: &mut Element, y: u64, available_width: u64) -> (taken: u64)
    requires
        y + extent(old(element).deep_view(), available_width as int) <= u64::MAX,
    ensures
        final(element).deep_view() == laid_out(
            old(element).deep_view(),
            y as int,
            available_width as int,
        ),
        taken == extent(old(element).deep_view(), available_width as int),
    decreases *old(element),
{
    let ghost tree = element.deep_view();
    let ghost width = available_width as int;
    proof {
        lemma_children(element);
        lemma_heights(tree, width);
        lemma_stack_height(tree.children, width);
    }
    let margin: u64 = tag_style(element.tag.as_str()).margin;
    let top: u64 = y + 10 * margin;
    proof {
        lemma_stacked(tree.children, top as int, width);
    }
    let mut height: u64 = 0;
    if element.children.len() == 0 {
        height = match own_height(element, available_width) {
            Some(height) => height,
            None => 0,
        };
        proof {
            assert(stacked(tree.children, top as int, width) =~= Seq::empty());
        }
    } else {
        let mut i: usize = 0;
        assert(tree.children.take(0) =~= Seq::empty());
        while i < element.children.len()
            invariant
                i <= element.children@.len(),
                width == available_width,
                tree == old(element).deep_view(),
                tree.children == old(element).children.deep_view(),
                element.children@.len() == tree.children.len(),
                margin == style_of(tree.tag).margin,
                top == y + 10 * margin,
                top + stack_height(tree.children, width) <= u64::MAX,
                height == stack_height(tree.children.take(i as int), width),
                forall|n: int|
                    0 <= n <= tree.children.len() ==> 0 <= #[trigger] stack_height(
                        tree.children.take(n),
                        width,
                    ) <= stack_height(tree.children, width),
                forall|k: int|
                    i <= k < tree.children.len() ==> #[trigger] element.children@[k]
                        == old(element).children@[k],
                forall|k: int|
                    0 <= k < i ==> (#[trigger] element.children@[k]).deep_view() == laid_out(
                        tree.children[k],
                        top + stack_height(tree.children.take(k), width),
                        width,
                    ),
                ({
                    let e = *element;
                    e == (Element { children: e.children, ..*old(element) })
                }),
            decreases element.children@.len() - i,
        {
            let ghost now = tree.children.take(i + 1);
            proof {
                assert(now.drop_last() =~= tree.children.take(i as int));
                assert(now.last() == tree.children[i as int]);
                assert(element.children@[i as int] == old(element).children@[i as int]);
                assert(stack_height(now, width) <= stack_height(tree.children, width));
            }
            let taken = layout_element(&mut element.children[i], top + height, available_width);
            height = height + taken;
            i = i + 1;
        }
        assert(tree.children.take(tree.children.len() as int) =~= tree.children);
    }
    element.layout = Some(Layout { x: 0, y: top, width: available_width, height });
    proof {
        lemma_children(element);
        assert(element.children.deep_view() =~= stacked(tree.children, top as int, width));
    }
    height + 20 * margin
}

/// Computes the box of every element of a page, as if laid out in a viewport
/// of the given width, in tenths of a pixel. Every element with children
/// stacks them at full width; only the text of an element without children
/// is wrapped and sized. Returns whether the layout could be written down:
/// where the page would be higher than a box can say, nothing changes.
pub fn compute_layout(page: &mut Page, viewport_width: u64) -> (done: bool)
    ensures
        done == (extent(old(page).deep_view().root, layout_width(viewport_width as int))
            <= u64::MAX),
        done ==> final(page).deep_view() == (PageView {
            root: laid_out(
                old(page).deep_view().root,
                0,
                layout_width(viewport_width as int),
            ),
            ..old(page).deep_view()
        }),
        !done ==> *final(page) == *old(page),
{
    let width: u64 = if viewport_width < 10 { 10 } else { viewport_width };
    if measure(&page.root, width).is_none() {
        return false;
    }
    layout_element(&mut page.root, 0, width);
    true
}

proof fn lemma_filled_lines(parts: Seq<Seq<char>>, limit: int)
    requires
        limit >= 1,
    ensures
        filled_lines(parts, limit).len() == 0 <==> parts.len() == 0,
        filled_lines(parts, limit).len() <= parts.len(),
        join(filled_lines(parts, limit), seq![' ']) == join(parts, seq![' ']),
        forall|k: int|
            0 <= k < filled_lines(parts, limit).len() ==> {
                let line = #[trigger] filled_lines(parts, limit)[k];
                line.len() <= limit || parts.contains(line)
            },
    decreases parts.len(),
{
    if parts.len() > 0 {
        let head = parts.drop_last();
        let word = parts.last();
        lemma_filled_lines(head, limit);
        let before = filled_lines(head, limit);
        let lines = filled_lines(parts, limit);
        assert(parts[parts.len() - 1] == word);
        if before.len() == 0 {
            assert(lines =~= seq![word]);
        } else if before.last().len() + 1 + word.len() > limit {
            assert(lines.drop_last() =~= before);
        } else {
            assert(lines.drop_last() =~= before.drop_last());
            assert(join(lines, seq![' ']) =~= join(before, seq![' ']) + seq![' '] + word);
        }
        assert forall|k: int| 0 <= k < lines.len() implies {
            let line = #[trigger] lines[k];
            line.len() <= limit || parts.contains(line)
        } by {
            if k < lines.len() - 1 {
                assert(lines[k] == before[k]);
            }
            if head.contains(lines[k]) {
                let i = choose|i: int| 0 <= i < head.len() && head[i] == lines[k];
                assert(parts[i] == lines[k]);
            }
        }
    }
}

/// Wrapping loses nothing and moves nothing: the lines put together again,
/// with a space between each two, are the words of the text in order.
pub proof fn law_wrapping_keeps_the_text(text: Seq<char>, width: int, font_size: int)
    ensures
        join(wrapped(text, chars_per_line(width, font_size)), seq![' ']) == normalized(text),
{
    lemma_filled_lines(words(text), chars_per_line(width, font_size));
}

/// A line is no longer than the width has room for, unless it is a single
/// word that is.
pub proof fn law_lines_fit(text: Seq<char>, width: int, font_size: int, k: int)
    requires
        0 <= k < wrapped(text, chars_per_line(width, font_size)).len(),
    ensures
        ({
            let limit = chars_per_line(width, font_size);
            let line = wrapped(text, limit)[k];
            line.len() <= limit || words(text).contains(line)
        }),
{
    lemma_filled_lines(words(text), chars_per_line(width, font_size));
}

/// An element as it was before any layout.
pub open spec fn without_boxes(e: ElementView) -> ElementView
    decreases e,
{
    ElementView { layout: None, children: all_without_boxes(e.children), ..e }
}

pub open spec fn all_without_boxes(s: Seq<ElementView>) -> Seq<ElementView>
    decreases s,
{
    if s.len() == 0 {
        Seq::empty()
    } else {
        all_without_boxes(s.drop_last()).push(without_boxes(s.last()))
    }
}

/// Laying out changes no more than the boxes.
pub proof fn law_layout_changes_only_boxes(e: ElementView, y: int, width: int)
    ensures
        without_boxes(laid_out(e, y, width)) == without_boxes(e),
    decreases e,
{
    lemma_only_boxes(e.children, y + 10 * style_of(e.tag).margin, width);
}

proof fn lemma_only_boxes(s: Seq<ElementView>, y: int, width: int)
    ensures
        all_without_boxes(stacked(s, y, width)) == all_without_boxes(s),
    decreases s,
{
    if s.len() > 0 {
        lemma_only_boxes(s.drop_last(), y, width);
        let last_y = y + stack_height(s.drop_last(), width);
        law_layout_changes_only_boxes(s.last(), last_y, width);
        assert(stacked(s, y, width).drop_last() =~= stacked(s.drop_last(), y, width));
    }
}

proof fn lemma_height_without_boxes(e: ElementView, width: int)
    ensures
        content_height(without_boxes(e), width) == content_height(e, width),
        extent(without_boxes(e), width) == extent(e, width),
    decreases e, 1int,
{
    lemma_stack_without_boxes(e.children, width);
}

proof fn lemma_stack_without_boxes(s: Seq<ElementView>, width: int)
    ensures
        all_without_boxes(s).len() == s.len(),
        stack_height(all_without_boxes(s), width) == stack_height(s, width),
    decreases s, 0int,
{
    if s.len() > 0 {
        lemma_stack_without_boxes(s.drop_last(), width);
        lemma_height_without_boxes(s.last(), width);
        assert(all_without_boxes(s).drop_last() =~= all_without_boxes(s.drop_last()));
    }
}

proof fn lemma_laid_out_without_boxes(e: ElementView, y: int, width: int)
    ensures
        laid_out(without_boxes(e), y, width) == laid_out(e, y, width),
    decreases e,
{
    lemma_height_without_boxes(e, width);
    lemma_stacked_without_boxes(e.children, y + 10 * style_of(e.tag).margin, width);
}

proof fn lemma_stacked_without_boxes(s: Seq<ElementView>, y: int, width: int)
    ensures
        stacked(all_without_boxes(s), y, width) == stacked(s, y, width),
    decreases s,
{
    if s.len() > 0 {
        let head = s.drop_last();
        lemma_stacked_without_boxes(head, y, width);
        lemma_stack_without_boxes(head, width);
        lemma_laid_out_without_boxes(s.last(), y + stack_height(head, width), width);
        assert(all_without_boxes(s).drop_last() =~= all_without_boxes(head));
    }
}

/// Layout depends on no earlier layout: laying out again, at the same or at
/// another width, gives what laying out once gives.
pub proof fn law_layout_forgets_earlier_boxes(
    e: ElementView,
    y: int,
    width: int,
    new_y: int,
    new_width: int,
)
    ensures
        laid_out(laid_out(e, y, width), new_y, new_width) == laid_out(e, new_y, new_width),
{
    let once = laid_out(e, y, width);
    law_layout_changes_only_boxes(e, y, width);
    lemma_laid_out_without_boxes(once, new_y, new_width);
    lemma_laid_out_without_boxes(e, new_y, new_width);
}

/// Whether an element has a box that begins at the left edge, has the given
/// width and lies between two heights.
pub open spec fn boxed(e: ElementView, top: int, bottom: int, width: int) -> bool {
    match e.layout {
        Some(layout) => {
            &&& layout.x == 0
            &&& layout.width == width
            &&& top <= layout.y
            &&& layout.y + layout.height <= bottom
        },
        None => false,
    }
}

/// Every element of a page that was laid out has a box, at the left edge and
/// as wide as the viewport, within the height that the page takes up.
pub proof fn law_every_element_is_boxed(e: ElementView, y: int, width: int, k: int)
    requires
        0 <= y,
        0 <= width <= u64::MAX,
        y + extent(e, width) <= u64::MAX,
        0 <= k < preorder(laid_out(e, y, width)).len(),
    ensures
        boxed(preorder(laid_out(e, y, width))[k], y, y + extent(e, width), width),
    decreases e,
{
    let top = y + 10 * style_of(e.tag).margin;
    lemma_heights(e, width);
    if k > 0 {
        let below = stacked(e.children, top, width);
        assert(preorder(laid_out(e, y, width))[k] == preorder_all(below)[k - 1]);
        lemma_stacked(e.children, top, width);
        lemma_stack_height(e.children, width);
        lemma_all_boxed(e.children, top, width, k - 1);
    }
}

proof fn lemma_all_boxed(s: Seq<ElementView>, y: int, width: int, k: int)
    requires
        0 <= y,
        0 <= width <= u64::MAX,
        y + stack_height(s, width) <= u64::MAX,
        0 <= k < preorder_all(stacked(s, y, width)).len(),
    ensures
        boxed(preorder_all(stacked(s, y, width))[k], y, y + stack_height(s, width), width),
    decreases s,
{
    if s.len() > 0 {
        let head = s.drop_last();
        let last_y = y + stack_height(head, width);
        let all = stacked(s, y, width);
        let before = preorder_all(stacked(head, y, width));
        assert(all.drop_last() =~= stacked(head, y, width));
        lemma_heights(s.last(), width);
        lemma_stack_height(head, width);
        if k < before.len() {
            lemma_all_boxed(head, y, width, k);
            assert(preorder_all(all)[k] == before[k]);
        } else {
            law_every_element_is_boxed(s.last(), last_y, width, k - before.len());
            assert(preorder_all(all)[k] == preorder(all.last())[k - before.len()]);
        }
    }
}

/// The children of an element are stacked inside its box without overlap:
/// each begins below the one before it, with the lower margin of the one and
/// the upper margin of the other between them.
pub proof fn law_children_are_stacked(e: ElementView, y: int, width: int, i: int, j: int)
    requires
        0 <= y,
        0 <= width <= u64::MAX,
        y + extent(e, width) <= u64::MAX,
        0 <= i < j < e.children.len(),
    ensures
        ({
            let laid = laid_out(e, y, width);
            let parent = laid.layout->0;
            let upper = laid.children[i].layout->0;
            let lower = laid.children[j].layout->0;
            let gap = 10 * style_of(e.children[i].tag).margin + 10 * style_of(
                e.children[j].tag,
            ).margin;
            &&& laid.layout is Some && laid.children.len() == e.children.len()
            &&& laid.children[i].layout is Some && laid.children[j].layout is Some
            &&& parent.y <= upper.y
            &&& upper.y + upper.height + gap <= lower.y
            &&& j == i + 1 ==> upper.y + upper.height + gap == lower.y
            &&& lower.y + lower.height <= parent.y + parent.height
        }),
{
    let top = y + 10 * style_of(e.tag).margin;
    let s = e.children;
    lemma_heights(e, width);
    lemma_stacked(s, top, width);
    lemma_stack_height(s, width);
    lemma_heights(s[i], width);
    lemma_heights(s[j], width);
    assert(s.take(i + 1).drop_last() =~= s.take(i));
    assert(s.take(j + 1).drop_last() =~= s.take(j));
    lemma_stack_height(s.take(j), width);
    assert(s.take(j).take(i + 1) =~= s.take(i + 1));
    assert(stacked(s, top, width)[i] == laid_out(s[i], top + stack_height(s.take(i), width), width));
    assert(stacked(s, top, width)[j] == laid_out(s[j], top + stack_height(s.take(j), width), width));
    assert(stack_height(s.take(i + 1), width) <= stack_height(s.take(j), width));
    assert(stack_height(s.take(j + 1), width) <= stack_height(s, width));
}

/// Elements without children come in the order of their boxes: each ends
/// before any element begins that follows it in the page.
pub proof fn law_boxes_come_in_order(e: ElementView, y: int, width: int, i: int, k: int)
    requires
        0 <= y,
        0 <= width <= u64::MAX,
        y + extent(e, width) <= u64::MAX,
        0 <= i < k < preorder(laid_out(e, y, width)).len(),
        preorder(laid_out(e, y, width))[i].children.len() == 0,
    ensures
        ({
            let upper = preorder(laid_out(e, y, width))[i].layout->0;
            let lower = preorder(laid_out(e, y, width))[k].layout->0;
            upper.y + upper.height <= lower.y
        }),
    decreases e,
{
    let laid = laid_out(e, y, width);
    let top = y + 10 * style_of(e.tag).margin;
    lemma_heights(e, width);
    lemma_stacked(e.children, top, width);
    if i == 0 {
        assert(preorder(laid)[0] == laid);
        assert(preorder_all(laid.children).len() == 0);
    } else {
        assert(preorder(laid)[i] == preorder_all(laid.children)[i - 1]);
        assert(preorder(laid)[k] == preorder_all(laid.children)[k - 1]);
        lemma_boxes_in_order(e.children, top, width, i - 1, k - 1);
    }
}

proof fn lemma_boxes_in_order(s: Seq<ElementView>, y: int, width: int, i: int, k: int)
    requires
        0 <= y,
        0 <= width <= u64::MAX,
        y + stack_height(s, width) <= u64::MAX,
        0 <= i < k < preorder_all(stacked(s, y, width)).len(),
        preorder_all(stacked(s, y, width))[i].children.len() == 0,
    ensures
        ({
            let upper = preorder_all(stacked(s, y, width))[i].layout->0;
            let lower = preorder_all(stacked(s, y, width))[k].layout->0;
            upper.y + upper.height <= lower.y
        }),
    decreases s,
{
    if s.len() > 0 {
        let head = s.drop_last();
        let last_y = y + stack_height(head, width);
        let all = stacked(s, y, width);
        let before = preorder_all(stacked(head, y, width));
        assert(all.drop_last() =~= stacked(head, y, width));
        lemma_heights(s.last(), width);
        lemma_stack_height(head, width);
        if k < before.len() {
            lemma_boxes_in_order(head, y, width, i, k);
        } else {
            assert(preorder_all(all)[k] == preorder(all.last())[k - before.len()]);
            if i < before.len() {
                assert(preorder_all(all)[i] == before[i]);
                lemma_all_boxed(head, y, width, i);
                law_every_element_is_boxed(s.last(), last_y, width, k - before.len());
            } else {
                assert(preorder_all(all)[i] == preorder(all.last())[i - before.len()]);
                law_boxes_come_in_order(
                    s.last(),
                    last_y,
                    width,
                    i - before.len(),
                    k - before.len(),
                );
            }
        }
    }
}

/// How high a page is depends on no earlier layout.
pub proof fn law_height_forgets_earlier_boxes(e: ElementView, y: int, width: int, new_width: int)
    ensures
        extent(laid_out(e, y, width), new_width) == extent(e, new_width),
{
    law_layout_changes_only_boxes(e, y, width);
    lemma_height_without_boxes(laid_out(e, y, width), new_width);
    lemma_height_without_boxes(e, new_width);
}

/// Whether the children of an element have boxes that come one below the
/// other: each begins at or below the end of every one before it.
pub open spec fn is_stacked(e: ElementView) -> bool {
    forall|i: int, j: int|
        0 <= i < j < e.children.len() ==> (#[trigger] e.children[i]).layout->0.y
            + e.children[i].layout->0.height <= (#[trigger] e.children[j]).layout->0.y
}

proof fn lemma_stacked_everywhere(e: ElementView, y: int, width: int, k: int)
    requires
        0 <= y,
        0 <= width <= u64::MAX,
        y + extent(e, width) <= u64::MAX,
        0 <= k < preorder(laid_out(e, y, width)).len(),
    ensures
        is_stacked(preorder(laid_out(e, y, width))[k]),
    decreases e,
{
    let laid = laid_out(e, y, width);
    let top = y + 10 * style_of(e.tag).margin;
    lemma_heights(e, width);
    lemma_stacked(e.children, top, width);
    lemma_stack_height(e.children, width);
    if k == 0 {
        assert forall|i: int, j: int| 0 <= i < j < laid.children.len() implies (
        #[trigger] laid.children[i]).layout->0.y + laid.children[i].layout->0.height <= (
        #[trigger] laid.children[j]).layout->0.y by {
            law_children_are_stacked(e, y, width, i, j);
        }
    } else {
        assert(preorder(laid)[k] == preorder_all(laid.children)[k - 1]);
        lemma_all_stacked_everywhere(e.children, top, width, k - 1);
    }
}

proof fn lemma_all_stacked_everywhere(s: Seq<ElementView>, y: int, width: int, k: int)
    requires
        0 <= y,
        0 <= width <= u64::MAX,
        y + stack_height(s, width) <= u64::MAX,
        0 <= k < preorder_all(stacked(s, y, width)).len(),
    ensures
        is_stacked(preorder_all(stacked(s, y, width))[k]),
    decreases s,
{
    if s.len() > 0 {
        let head = s.drop_last();
        let last_y = y + stack_height(head, width);
        let all = stacked(s, y, width);
        let before = preorder_all(stacked(head, y, width));
        assert(all.drop_last() =~= stacked(head, y, width));
        lemma_heights(s.last(), width);
        lemma_stack_height(head, width);
        if k < before.len() {
            lemma_all_stacked_everywhere(head, y, width, k);
            assert(preorder_all(all)[k] == before[k]);
        } else {
            lemma_stacked_everywhere(s.last(), last_y, width, k - before.len());
            assert(preorder_all(all)[k] == preorder(all.last())[k - before.len()]);
        }
    }
}

/// A page that was laid out at a width, as a whole: every element has a box
/// at the left edge that is as wide as the viewport, which is taken to be at
/// least a pixel wide; of the children of any element the later begin where the earlier
/// end, or below; whatever boxes the page had before do not matter; and
/// nothing but the boxes is changed.
pub proof fn law_page_is_laid_out(page: PageView, viewport_width: u64)
    requires
        extent(page.root, layout_width(viewport_width as int)) <= u64::MAX,
    ensures
        ({
            let width = layout_width(viewport_width as int);
            let root = laid_out(page.root, 0, width);
            &&& forall|k: int|
                0 <= k < preorder(root).len() ==> {
                    let e = #[trigger] preorder(root)[k];
                    &&& boxed(e, 0, extent(page.root, width), width)
                    &&& is_stacked(e)
                }
            &&& forall|earlier: int, y: int|
                #![trigger laid_out(page.root, y, earlier)]
                laid_out(laid_out(page.root, y, earlier), 0, width) == root
            &&& without_boxes(root) == without_boxes(page.root)
        }),
{
    let width = layout_width(viewport_width as int);
    let root = laid_out(page.root, 0, width);
    assert forall|k: int| 0 <= k < preorder(root).len() implies {
        let e = #[trigger] preorder(root)[k];
        &&& boxed(e, 0, extent(page.root, width), width)
        &&& is_stacked(e)
    } by {
        law_every_element_is_boxed(page.root, 0, width, k);
        lemma_stacked_everywhere(page.root, 0, width, k);
    }
    assert forall|earlier: int, y: int|
        #![trigger laid_out(page.root, y, earlier)]
        laid_out(laid_out(page.root, y, earlier), 0, width) == root by {
        law_layout_forgets_earlier_boxes(page.root, y, earlier, 0, width);
    }
    law_layout_changes_only_boxes(page.root, 0, width);
}

/// Whether line number `k` is a run of words, with a space between each two:
/// those from number `starts[k]` on, up to where the next line begins.
pub open spec fn is_run(
    lines: Seq<Seq<char>>,
    parts: Seq<Seq<char>>,
    starts: Seq<int>,
    k: int,
) -> bool {
    &&& 0 <= starts[k] < starts[k + 1] <= parts.len()
    &&& lines[k] == join(parts.subrange(starts[k], starts[k + 1]), seq![' '])
}

/// Whether lines are runs of words, one behind the other, and line number `k`
/// begins with word number `starts[k]`.
pub open spec fn are_runs(
    lines: Seq<Seq<char>>,
    parts: Seq<Seq<char>>,
    starts: Seq<int>,
) -> bool {
    &&& starts.len() == lines.len() + 1
    &&& starts[0] == 0
    &&& starts[lines.len() as int] == parts.len()
    &&& forall|k: int| 0 <= k < lines.len() ==> #[trigger] is_run(lines, parts, starts, k)
}

spec fn is_full(
    lines: Seq<Seq<char>>,
    parts: Seq<Seq<char>>,
    starts: Seq<int>,
    limit: int,
    k: int,
) -> bool {
    &&& starts[k] + 1 < starts[k + 1] ==> lines[k].len() <= limit
    &&& k + 1 < lines.len() ==> lines[k].len() + 1 + parts[starts[k + 1]].len() > limit
}

proof fn lemma_runs(parts: Seq<Seq<char>>, limit: int) -> (starts: Seq<int>)
    requires
        parts.len() > 0,
    ensures
        filled_lines(parts, limit).len() > 0,
        are_runs(filled_lines(parts, limit), parts, starts),
        forall|k: int|
            0 <= k < filled_lines(parts, limit).len() ==> #[trigger] is_full(
                filled_lines(parts, limit),
                parts,
                starts,
                limit,
                k,
            ),
    decreases parts.len(),
{
    let lines = filled_lines(parts, limit);
    let head = parts.drop_last();
    let word = parts.last();
    let n = parts.len() as int;
    if head.len() == 0 {
        let starts = seq![0, 1];
        assert(filled_lines(head, limit) =~= Seq::empty());
        assert(lines =~= seq![word]);
        assert(parts.subrange(0, 1) =~= seq![word]);
        starts
    } else {
        let before = filled_lines(head, limit);
        let old = lemma_runs(head, limit);
        let m = before.len() as int;
        let starts = if before.last().len() + 1 + word.len() > limit {
            old.push(n)
        } else {
            old.update(m, n)
        };
        assert forall|k: int| 0 <= k < lines.len() implies #[trigger] is_run(
            lines,
            parts,
            starts,
            k,
        ) && is_full(lines, parts, starts, limit, k) by {
            if k < m {
                assert(is_run(before, head, old, k));
                assert(is_full(before, head, old, limit, k));
            }
            if k < m - 1 {
                assert(is_run(before, head, old, k + 1));
                assert(parts.subrange(old[k], old[k + 1]) =~= head.subrange(old[k], old[k + 1]));
            } else if k == m - 1 {
                let run = parts.subrange(old[k], n);
                assert(run.drop_last() =~= head.subrange(old[k], n - 1));
                assert(run.last() == word);
                assert(parts.subrange(old[k], n - 1) =~= head.subrange(old[k], n - 1));
            } else {
                assert(parts.subrange(n - 1, n) =~= seq![word]);
            }
        }
        assert forall|k: int| 0 <= k < lines.len() implies #[trigger] is_full(
            lines,
            parts,
            starts,
            limit,
            k,
        ) by {
            assert(is_run(lines, parts, starts, k));
        }
        starts
    }
}

proof fn lemma_room(length: int, width: int, font_size: int)
    requires
        0 <= width,
        0 <= font_size,
    ensures
        length > chars_per_line(width, font_size) ==> length * (55 * font_size) > 10 * width
            || 10 * length > width,
        2 <= length <= chars_per_line(width, font_size) ==> length * (55 * font_size) <= 10 * width
            && 10 * length <= width,
{
    let one = if 55 * font_size < 100 {
        100
    } else {
        55 * font_size
    };
    let whole = (10 * width) / one;
    vstd::arithmetic::div_mod::lemma_fundamental_div_mod(10 * width, one);
    assert(0 <= (10 * width) % one < one) by (nonlinear_arith)
        requires
            one > 0,
    ;
    if length > whole {
        assert(length * one > 10 * width) by (nonlinear_arith)
            requires
                length >= whole + 1,
                one > 0,
                10 * width == one * whole + (10 * width) % one,
                (10 * width) % one < one,
        ;
    }
    if 0 <= length <= whole {
        assert(length * one <= 10 * width) by (nonlinear_arith)
            requires
                length <= whole,
                one > 0,
                10 * width == one * whole + (10 * width) % one,
                0 <= (10 * width) % one,
        ;
        assert(length * (55 * font_size) <= length * one) by (nonlinear_arith)
            requires
                length >= 0,
                55 * font_size <= one,
        ;
        assert(length * 100 <= length * one) by (nonlinear_arith)
            requires
                length >= 0,
                100 <= one,
        ;
    }
}

/// Text is wrapped by the width of its own characters, which is estimated at
/// 0.55 font sizes, and at no less than a pixel. The lines are runs of the
/// text's words. A line of more than one word is within the width, and with
/// the first word of the next line behind it no line would be. The width is
/// in tenths of a pixel, the font size in pixels.
pub proof fn law_lines_are_as_wide_as_fits(text: Seq<char>, width: int, font_size: int)
    requires
        0 <= width,
        0 <= font_size,
        words(text).len() > 0,
    ensures
        ({
            let lines = wrapped(text, chars_per_line(width, font_size));
            exists|starts: Seq<int>|
                {
                    &&& #[trigger] are_runs(lines, words(text), starts)
                    &&& forall|k: int|
                        0 <= k < lines.len() && 1 < starts[k + 1] - starts[k] ==> {
                            &&& (#[trigger] lines[k]).len() * (55 * font_size) <= 10 * width
                            &&& 10 * lines[k].len() <= width
                        }
                    &&& forall|k: int|
                        0 <= k < lines.len() - 1 ==> {
                            let longer = (#[trigger] lines[k]).len() + 1 + words(
                                text,
                            )[starts[k + 1]].len();
                            longer * (55 * font_size) > 10 * width || 10 * longer > width
                        }
                }
        }),
{
    let limit = chars_per_line(width, font_size);
    let parts = words(text);
    let lines = wrapped(text, limit);
    let starts = lemma_runs(parts, limit);
    lemma_words_are_words(text);
    assert(are_runs(lines, parts, starts));
    assert forall|k: int|
        0 <= k < lines.len() && 1 < starts[k + 1] - starts[k] implies (#[trigger] lines[k]).len()
        * (55 * font_size) <= 10 * width && 10 * lines[k].len() <= width by {
        assert(is_run(lines, parts, starts, k));
        assert(is_full(lines, parts, starts, limit, k));
        let run = parts.subrange(starts[k], starts[k + 1]);
        let first = join(run.drop_last(), seq![' ']);
        assert(lines[k] == first + seq![' '] + run.last());
        assert(is_word(parts[starts[k + 1] - 1]));
        lemma_room(lines[k].len() as int, width, font_size);
    }
    assert forall|k: int| 0 <= k < lines.len() - 1 implies {
        let longer = (#[trigger] lines[k]).len() + 1 + parts[starts[k + 1]].len();
        longer * (55 * font_size) > 10 * width || 10 * longer > width
    } by {
        assert(is_full(lines, parts, starts, limit, k));
        lemma_room(
            (lines[k].len() + 1 + parts[starts[k + 1]].len()) as int,
            width,
            font_size,
        );
    }
}

/// A text without words has one line, which is empty.
pub proof fn law_no_words_make_an_empty_line(text: Seq<char>, width: int, font_size: int)
    requires
        words(text).len() == 0,
    ensures
        wrapped(text, chars_per_line(width, font_size)) == seq![Seq::<char>::empty()],
{
}

/// Headings are large and bold, the smaller the deeper; paragraphs, quotes
/// and lists stand apart, items of a list a little; and everything else is
/// shown like plain text. Font sizes and margins are in pixels.
pub proof fn law_style_goes_by_the_tag(tag: Seq<char>)
    ensures
        ({
            let style = style_of(tag);
            let heading = tag == "h1"@ || tag == "h2"@ || tag == "h3"@ || tag == "h4"@ || tag
                == "h5"@ || tag == "h6"@;
            let block = tag == "p"@ || tag == "blockquote"@ || tag == "ul"@ || tag == "ol"@;
            &&& tag == "h1"@ ==> style.font_size == 32 && style.margin == 24
            &&& tag == "h2"@ ==> style.font_size == 24 && style.margin == 20
            &&& tag == "h3"@ ==> style.font_size == 19 && style.margin == 18
            &&& tag == "h4"@ ==> style.font_size == 16 && style.margin == 16
            &&& tag == "h5"@ ==> style.font_size == 13 && style.margin == 14
            &&& tag == "h6"@ ==> style.font_size == 11 && style.margin == 14
            &&& !heading ==> style.font_size == 16
            &&& block ==> style.margin == 16
            &&& tag == "li"@ ==> style.margin == 4
            &&& !heading && !block && tag != "li"@ ==> style.margin == 0
            &&& style.bold == (heading || tag == "strong"@ || tag == "b"@)
        }),
{
    reveal_strlit("h1");
    reveal_strlit("h2");
    reveal_strlit("h3");
    reveal_strlit("h4");
    reveal_strlit("h5");
    reveal_strlit("h6");
    reveal_strlit("p");
    reveal_strlit("b");
    reveal_strlit("li");
    reveal_strlit("ul");
    reveal_strlit("ol");
    reveal_strlit("strong");
    reveal_strlit("blockquote");
    assert("h1"@[1] == '1' && "h2"@[1] == '2' && "h3"@[1] == '3' && "h4"@[1] == '4' && "h5"@[1]
        == '5' && "h6"@[1] == '6');
    assert("li"@[1] == 'i' && "ul"@[1] == 'l' && "ol"@[1] == 'l' && "ul"@[0] == 'u' && "ol"@[0]
        == 'o');
    assert("p"@[0] == 'p' && "b"@[0] == 'b' && "p"@.len() == 1 && "b"@.len() == 1);
    assert("strong"@.len() == 6 && "blockquote"@.len() == 10 && "li"@.len() == 2);
}

/// The box of an element begins below its upper margin. Without children it
/// is as high as its lines, each 1.3 font sizes; without text, it has no
/// height.
pub proof fn law_box_holds_the_lines(e: ElementView, y: int, width: int)
    requires
        0 <= y,
        0 <= width <= u64::MAX,
        y + extent(e, width) <= u64::MAX,
    ensures
        ({
            let layout = laid_out(e, y, width).layout->0;
            let font_size = style_of(e.tag).font_size as int;
            let lines = wrapped(e.text, chars_per_line(width, font_size));
            &&& laid_out(e, y, width).layout is Some
            &&& layout.y == y + 10 * style_of(e.tag).margin
            &&& e.children.len() == 0 && e.text.len() == 0 ==> layout.height == 0
            &&& e.children.len() == 0 && e.text.len() > 0 ==> 10 * layout.height == lines.len() * (
            130 * font_size)
            &&& extent(e, width) == layout.height + 20 * style_of(e.tag).margin
        }),
{
    lemma_heights(e, width);
    if e.children.len() == 0 && e.text.len() > 0 {
        let font_size = style_of(e.tag).font_size as int;
        let lines = wrapped(e.text, chars_per_line(width, font_size)).len();
        assert(10 * (lines * (13 * font_size)) == lines * (130 * font_size)) by (nonlinear_arith);
    }
}

/// The box of an element with children holds them and their margins, and no
/// more: the first begins at its top, the last ends at its bottom, whatever
/// text the element itself has.
pub proof fn law_box_holds_the_children(e: ElementView, y: int, width: int)
    requires
        0 <= y,
        0 <= width <= u64::MAX,
        y + extent(e, width) <= u64::MAX,
        e.children.len() > 0,
    ensures
        ({
            let laid = laid_out(e, y, width);
            let parent = laid.layout->0;
            let first = laid.children[0].layout->0;
            let last = laid.children[e.children.len() - 1].layout->0;
            &&& laid.children.len() == e.children.len()
            &&& first.y == parent.y + 10 * style_of(e.children[0].tag).margin
            &&& last.y + last.height + 10 * style_of(e.children.last().tag).margin == parent.y
                + parent.height
        }),
{
    let top = y + 10 * style_of(e.tag).margin;
    let s = e.children;
    lemma_heights(e, width);
    lemma_stacked(s, top, width);
    lemma_stack_height(s, width);
    lemma_heights(s[0], width);
    lemma_heights(s.last(), width);
    assert(s.take(0) =~= Seq::empty());
    assert(s.take(s.len() - 1) =~= s.drop_last());
    lemma_stack_height(s.drop_last(), width);
    assert(laid_out(e, y, width).children[0] == laid_out(s[0], top, width));
    assert(stack_height(s.take(1), width) <= stack_height(s, width));
    assert(s.take(1).drop_last() =~= Seq::empty());
    assert(s.take(1).last() == s[0]);
}

/// A page is laid out at the width of the viewport, but never at less than a
/// pixel.
pub proof fn law_viewport_is_at_least_a_pixel(viewport_width: int)
    ensures
        layout_width(viewport_width) >= 10,
        layout_width(viewport_width) >= viewport_width,
        layout_width(viewport_width) == 10 || layout_width(viewport_width) == viewport_width,
{
}

} // verus!
