use kite_lite_core::layout::{tag_style, wrap_text};
use kite_lite_core::{compute_layout, parse_html, Element, Layout, Page};

#[test]
fn wraps_text_on_word_boundaries() {
    let lines = wrap_text("one two three four", 600, 16);
    assert!(lines.len() > 1);
    assert!(lines.iter().all(|line| !line.is_empty()));
    assert_eq!(lines.join(" "), "one two three four");
}

#[test]
fn stacks_headings_and_paragraphs_vertically_with_margins() {
    let mut page = parse_html("<h1>Title</h1><p>Body text</p>");
    compute_layout(&mut page, 8000);

    let html = &page.root.children[0];
    let h1 = &html.children[1].children[0];
    let p = &html.children[1].children[1];

    let h1_layout = h1.layout.expect("h1 should have a computed layout");
    let p_layout = p.layout.expect("p should have a computed layout");

    assert!(h1_layout.y < p_layout.y, "p should sit below h1");
    assert!(
        p_layout.y >= h1_layout.y + h1_layout.height,
        "p's top should not overlap h1's box"
    );
    assert_eq!(h1_layout.width, 8000);
}

#[test]
fn empty_page_has_zero_root_height_contribution_from_empty_children() {
    let mut page = parse_html("");
    compute_layout(&mut page, 5000);
    assert_eq!(page.root.layout.unwrap().height, 0);
}

#[test]
fn boxes_have_the_exact_sizes_of_their_styles() {
    let mut page = parse_html("<h1>Title</h1><p>Body text</p>");
    assert!(compute_layout(&mut page, 8000));
    let body = &page.root.children[0].children[1];
    // A heading: 24 px margin above and below, one line of 1.3 * 32 px.
    assert_eq!(body.children[0].layout, Some(Layout { x: 0, y: 240, width: 8000, height: 416 }));
    // Below it both margins, 24 px and 16 px, and one line of 1.3 * 16 px.
    assert_eq!(body.children[1].layout, Some(Layout { x: 0, y: 1056, width: 8000, height: 208 }));
    assert_eq!(body.layout, Some(Layout { x: 0, y: 0, width: 8000, height: 1424 }));
}

#[test]
fn width_is_at_least_one_pixel() {
    let mut page = parse_html("<p>a b</p>");
    assert!(compute_layout(&mut page, 0));
    let p = &page.root.children[0].children[1].children[0];
    assert_eq!(p.layout, Some(Layout { x: 0, y: 160, width: 10, height: 416 }));
}

#[test]
fn lines_hold_as_many_characters_as_fit() {
    // At 16 px a character is 8.8 px wide: 44 px hold five of them.
    assert_eq!(wrap_text("ab cd ef", 440, 16), vec!["ab cd", "ef"]);
    assert_eq!(wrap_text("ab cd ef", 439, 16), vec!["ab", "cd", "ef"]);
    assert_eq!(wrap_text("abcdefghij a", 440, 16), vec!["abcdefghij", "a"]);
    assert_eq!(wrap_text("  ", 440, 16), vec![""]);
    // A character is never less than a pixel wide.
    assert_eq!(wrap_text("ab cd", 40, 1), vec!["ab", "cd"]);
    assert_eq!(wrap_text("ab cd", 50, 1), vec!["ab cd"]);
}

#[test]
fn wrapped_lines_join_to_the_normalized_text() {
    let text = " several  words\tof a\nlonger text ";
    for width in [0, 100, 300, 900, 5000] {
        assert_eq!(wrap_text(text, width, 16).join(" "), "several words of a longer text");
    }
}

#[test]
fn styles_go_by_tag() {
    let sizes = [("h1", 32, 24), ("h2", 24, 20), ("h3", 19, 18), ("h4", 16, 16), ("h5", 13, 14), ("h6", 11, 14)];
    for (tag, font_size, margin) in sizes {
        let style = tag_style(tag);
        assert_eq!((style.font_size, style.margin, style.bold), (font_size, margin, true));
    }
    for tag in ["p", "blockquote", "ul", "ol"] {
        let style = tag_style(tag);
        assert_eq!((style.font_size, style.margin, style.bold), (16, 16, false));
    }
    let li = tag_style("li");
    assert_eq!((li.font_size, li.margin, li.bold), (16, 4, false));
    let strong = tag_style("strong");
    assert_eq!((strong.font_size, strong.margin, strong.bold), (16, 0, true));
    let other = tag_style("div");
    assert_eq!((other.font_size, other.margin, other.bold), (16, 0, false));
}

fn boxes(element: &Element, found: &mut Vec<Layout>) {
    found.push(element.layout.expect("every element has a box"));
    for child in &element.children {
        boxes(child, found);
    }
}

#[test]
fn layout_again_gives_the_same_boxes() {
    let mut page = parse_html("<h2>One</h2><ul><li>a</li><li>b</li></ul><p>text</p>");
    let mut other = page.clone();
    compute_layout(&mut page, 8000);
    let mut first = Vec::new();
    boxes(&page.root, &mut first);
    compute_layout(&mut page, 300);
    compute_layout(&mut page, 8000);
    let mut second = Vec::new();
    boxes(&page.root, &mut second);
    assert_eq!(first, second);
    assert!(first.iter().all(|b| b.x == 0 && b.width == 8000));
    compute_layout(&mut other, 8000);
    let mut third = Vec::new();
    boxes(&other.root, &mut third);
    assert_eq!(first, third);
}

#[test]
fn text_beside_children_is_not_laid_out() {
    let mut page: Page = parse_html("<p>Hello <a href=\"/x\">link</a></p>");
    compute_layout(&mut page, 8000);
    let p = &page.root.children[0].children[1].children[0];
    assert_eq!(p.layout.unwrap().height, 208);
    assert_eq!(p.children[0].layout.unwrap().height, 208);
}

fn leaves(element: &Element, found: &mut Vec<Layout>) {
    if element.children.is_empty() {
        found.push(element.layout.expect("every element has a box"));
    }
    for child in &element.children {
        leaves(child, found);
    }
}

#[test]
fn boxes_come_in_the_order_of_the_page() {
    let mut page = parse_html(
        "<h1>Title</h1><div><p>one</p><input><ul><li>a</li><li>b</li></ul></div><p>two</p>",
    );
    compute_layout(&mut page, 8000);
    let mut found = Vec::new();
    leaves(&page.root, &mut found);
    assert!(found.len() >= 6);
    for pair in found.windows(2) {
        assert!(pair[0].y + pair[0].height <= pair[1].y);
    }
}
