//! Pages drawn as SVG.

use crate::layout::{
    chars_per_line, compute_layout, extent, laid_out, law_height_forgets_earlier_boxes,
    law_layout_forgets_earlier_boxes, line_height, measure, style_of, tag_style, wrap_text, wrapped,
    TagStyle,
};
use crate::model::{Element, ElementView, Layout, Page};
use crate::seqs::{concat, gather, lemma_gather_add, lemma_gather_one, lemma_gather_push};
use crate::text::{decimal, decimal_text, has_part, stands_at};
use crate::tree::{nodes_of, preorder};
use vstd::prelude::*;

verus! {

/// What stands for a character in XML text and attributes.
pub open spec fn xml_char(c: char) -> Seq<char> {
    if c == '&' {
        "&amp;"@
    } else if c == '<' {
        "&lt;"@
    } else if c == '>' {
        "&gt;"@
    } else if c == '"' {
        "&quot;"@
    } else if c == '\'' {
        "&apos;"@
    } else {
        seq![c]
    }
}

pub open spec fn xml_chars() -> spec_fn(char) -> Seq<char> {
    |c: char| xml_char(c)
}

/// A text as it is written in XML.
pub open spec fn xml_escaped(text: Seq<char>) -> Seq<char> {
    gather(text, xml_chars())
}

/// Writes a text so that it can stand in XML text and attributes.
pub fn escape_xml(value: &str) -> (escaped: String)
    ensures
        escaped@ == xml_escaped(value@),
{
    let mut escaped = String::new();
    assert(value@.take(0) =~= Seq::empty());
    for c in it: value.chars()
        invariant
            it.seq() == value@,
            escaped@ == xml_escaped(value@.take(it.index() as int)),
    {
        proof {
            let i = it.index() as int;
            assert(value@.take(i + 1) =~= value@.take(i).push(c));
            lemma_gather_push(value@.take(i), c, xml_chars());
        }
        let ghost held = escaped@;
        if c == '&' {
            escaped.append("&amp;");
        } else if c == '<' {
            escaped.append("&lt;");
        } else if c == '>' {
            escaped.append("&gt;");
        } else if c == '"' {
            escaped.append("&quot;");
        } else if c == '\'' {
            escaped.append("&apos;");
        } else {
            escaped.push(c);
            assert(escaped@ =~= held + seq![c]);
        }
    }
    assert(value@.take(value@.len() as int) =~= value@);
    escaped
}

/// A length in tenths, written in whole units with one decimal where it is
/// needed.
pub open spec fn tenths(n: nat) -> Seq<char> {
    if n % 10 == 0 {
        decimal(n / 10)
    } else {
        decimal(n / 10) + "."@ + decimal(n % 10)
    }
}

/// A length in tenths, written in whole units with one decimal where it is
/// needed.
pub fn tenths_text(n: u128) -> (s: String)
    ensures
        s@ == tenths(n as nat),
{
    if n % 10 == 0 {
        decimal_text(n / 10)
    } else {
        decimal_text(n / 10).concat(".").concat(decimal_text(n % 10).as_str())
    }
}

/// One line of text, with its baseline at `y` tenths of a pixel.
pub open spec fn svg_line(line: Seq<char>, y: nat, style: TagStyle) -> Seq<char> {
    "<text x=\"0\" y=\""@ + tenths(y) + "\" font-size=\""@ + decimal(style.font_size as nat)
        + "px\" class=\""@ + (if style.bold {
        "heading"@
    } else {
        "muted"@
    }) + "\">"@ + xml_escaped(line) + "</text>\n"@
}

/// Lines of text below one another, the first with its top at `top`.
pub open spec fn svg_lines(lines: Seq<Seq<char>>, top: nat, style: TagStyle) -> Seq<char>
    decreases lines.len(),
{
    if lines.len() == 0 {
        Seq::empty()
    } else {
        let above = (lines.len() - 1) * line_height(style.font_size as int);
        svg_lines(lines.drop_last(), top, style) + svg_line(
            lines.last(),
            (top + above + 10 * style.font_size) as nat,
            style,
        )
    }
}

/// What an element adds to a drawing: its lines, where it has text and no
/// children.
pub open spec fn drawn(e: ElementView) -> Seq<char> {
    match e.layout {
        Some(layout) if e.children.len() == 0 && e.text.len() > 0 => {
            let style = style_of(e.tag);
            let limit = chars_per_line(layout.width as int, style.font_size as int);
            svg_lines(wrapped(e.text, limit), layout.y as nat, style)
        },
        _ => Seq::empty(),
    }
}

pub open spec fn drawing() -> spec_fn(ElementView) -> Seq<char> {
    |e: ElementView| drawn(e)
}

/// The width of a drawing, in pixels.
pub open spec fn svg_width(width: int) -> int {
    if width < 320 {
        320
    } else {
        width
    }
}

/// The height of a drawing of a page of the given height, in pixels: whole
/// pixels, at least 80.
pub open spec fn svg_height(height: int) -> int {
    let whole = (height + 9) / 10;
    if whole < 80 {
        80
    } else {
        whole
    }
}

/// What a drawing begins with.
pub open spec fn svg_head(width: nat, height: nat) -> Seq<char> {
    "<svg xmlns=\"http://www.w3.org/2000/svg\" width=\""@ + decimal(width) + "\" height=\""@
        + decimal(height) + "\" viewBox=\"0 0 "@ + decimal(width) + " "@ + decimal(height)
        + "\">\n<rect width=\"100%\" height=\"100%\" fill=\"#ffffff\"/>\n"@
        + "<style>text { font-family: system-ui, sans-serif; fill: #202124; } "@
        + ".heading { font-weight: 700; } .muted { fill: #5f6368; }</style>\n"@
}

/// The drawing of the tree of a page, laid out at the width it is drawn at.
pub open spec fn svg_of(root: ElementView, width: int) -> Seq<char> {
    let across = 10 * svg_width(width);
    svg_head(svg_width(width) as nat, svg_height(extent(root, across)) as nat) + gather(
        preorder(laid_out(root, 0, across)),
        drawing(),
    ) + "</svg>\n"@
}

fn svg_lines_text(lines: &Vec<String>, top: u64, style: TagStyle) -> (s: String)
    requires
        style.font_size <= 32,
    ensures
        s@ == svg_lines(lines.deep_view(), top as nat, style),
{
    let mut s = String::new();
    let ghost listed = lines.deep_view();
    assert(listed.take(0) =~= Seq::empty());
    for i in 0..lines.len()
        invariant
            style.font_size <= 32,
            listed == lines.deep_view(),
            s@ == svg_lines(listed.take(i as int), top as nat, style),
    {
        proof {
            let now = listed.take(i + 1);
            assert(now.drop_last() =~= listed.take(i as int));
            assert(now.last() == lines@[i as int]@);
            assert(i * line_height(style.font_size as int) == (i * (13 * style.font_size)));
            assert(i * (13 * style.font_size) <= 0xffff_ffff_ffff_ffff * 416) by (nonlinear_arith)
                requires
                    0 <= i <= 0xffff_ffff_ffff_ffff,
                    0 <= style.font_size <= 32,
            ;
        }
        let y: u128 = top as u128 + (i as u128) * ((13 * style.font_size) as u128) + (10
            * style.font_size) as u128;
        let line = "<text x=\"0\" y=\"".to_owned().concat(tenths_text(y).as_str()).concat(
            "\" font-size=\"",
        ).concat(decimal_text(style.font_size as u128).as_str()).concat("px\" class=\"").concat(
            if style.bold {
                "heading"
            } else {
                "muted"
            },
        ).concat("\">").concat(escape_xml(lines[i].as_str()).as_str()).concat("</text>\n");
        s.append(line.as_str());
    }
    assert(listed.take(listed.len() as int) =~= listed);
    s
}

fn draw(e: &Element) -> (s: String)
    ensures
        s@ == drawn(e.deep_view()),
{
    match e.layout {
        Some(layout) => {
            if e.children.len() == 0 && !e.text.as_str().is_empty() {
                let style = tag_style(e.tag.as_str());
                let lines = wrap_text(e.text.as_str(), layout.width, style.font_size);
                svg_lines_text(&lines, layout.y, style)
            } else {
                String::new()
            }
        },
        None => String::new(),
    }
}

/// Draws a page as SVG, at a width in pixels (at least 320). The layout is
/// computed anew at that width; every element without children that has
/// text is drawn, its text wrapped, at the place that its box has. `None`
/// where the page would be higher than a box can say.
pub fn render_svg(page: &Page, width: u32) -> (svg: Option<String>)
    ensures
        svg is Some == (extent(page.deep_view().root, 10 * svg_width(width as int)) <= u64::MAX),
        svg is Some ==> svg->0@ == svg_of(page.deep_view().root, width as int),
{
    let width: u64 = if width < 320 { 320 } else { width as u64 };
    let total: u128 = match measure(&page.root, 10 * width) {
        Some(height) => height as u128,
        None => {
            return None;
        },
    };
    let mut laid = page.clone();
    compute_layout(&mut laid, 10 * width);
    let nodes = nodes_of(&laid.root);
    let ghost listed = nodes.deep_view();
    let whole: u128 = (total + 9) / 10;
    let height: u128 = if whole < 80 { 80 } else { whole };
    let mut svg = "<svg xmlns=\"http://www.w3.org/2000/svg\" width=\"".to_owned().concat(
        decimal_text(width as u128).as_str(),
    ).concat("\" height=\"").concat(decimal_text(height).as_str()).concat(
        "\" viewBox=\"0 0 ",
    ).concat(decimal_text(width as u128).as_str()).concat(" ").concat(
        decimal_text(height).as_str(),
    ).concat("\">\n<rect width=\"100%\" height=\"100%\" fill=\"#ffffff\"/>\n").concat(
        "<style>text { font-family: system-ui, sans-serif; fill: #202124; } ",
    ).concat(".heading { font-weight: 700; } .muted { fill: #5f6368; }</style>\n");
    let ghost head = svg@;
    assert(listed.take(0) =~= Seq::empty());
    assert(svg@ =~= head + gather(listed.take(0), drawing()));
    for i in 0..nodes.len()
        invariant
            listed == nodes.deep_view(),
            svg@ == head + gather(listed.take(i as int), drawing()),
    {
        proof {
            assert(listed.take(i + 1) =~= listed.take(i as int).push(nodes@[i as int].deep_view()));
            lemma_gather_push(listed.take(i as int), nodes@[i as int].deep_view(), drawing());
        }
        svg.append(draw(nodes[i]).as_str());
        assert(svg@ =~= head + gather(listed.take(i + 1), drawing()));
    }
    assert(listed.take(listed.len() as int) =~= listed);
    svg.append("</svg>\n");
    Some(svg)
}

/// No character that means something to an XML reader is left in an escaped
/// text, but for the `&` that the entities begin with.
pub proof fn law_escaped_text_is_plain(text: Seq<char>, k: int)
    requires
        0 <= k < xml_escaped(text).len(),
    ensures
        ({
            let c = xml_escaped(text)[k];
            c != '<' && c != '>' && c != '"' && c != '\''
        }),
    decreases text.len(),
{
    reveal_strlit("&amp;");
    reveal_strlit("&lt;");
    reveal_strlit("&gt;");
    reveal_strlit("&quot;");
    reveal_strlit("&apos;");
    let before = xml_escaped(text.drop_last());
    if k < before.len() {
        law_escaped_text_is_plain(text.drop_last(), k);
    } else {
        assert(xml_escaped(text)[k] == xml_char(text.last())[k - before.len()]);
    }
}

proof fn lemma_escaped_first(c: char, rest: Seq<char>)
    ensures
        xml_escaped(seq![c] + rest) == xml_char(c) + xml_escaped(rest),
{
    lemma_gather_add(seq![c], rest, xml_chars());
    lemma_gather_one(c, xml_chars());
}

/// Escaping loses nothing: texts that are written the same are the same.
pub proof fn law_escaping_can_be_undone(a: Seq<char>, b: Seq<char>)
    requires
        xml_escaped(a) == xml_escaped(b),
    ensures
        a == b,
    decreases a.len(),
{
    reveal_strlit("&amp;");
    reveal_strlit("&lt;");
    reveal_strlit("&gt;");
    reveal_strlit("&quot;");
    reveal_strlit("&apos;");
    if a.len() > 0 && b.len() > 0 {
        let x = a[0];
        let y = b[0];
        let s = a.drop_first();
        let t = b.drop_first();
        assert(a =~= seq![x] + s);
        assert(b =~= seq![y] + t);
        lemma_escaped_first(x, s);
        lemma_escaped_first(y, t);
        let all = xml_escaped(a);
        assert(all[0] == xml_char(x)[0] && all[0] == xml_char(y)[0]);
        if x != y {
            assert(all[0] == '&');
            assert(all[1] == xml_char(x)[1] && all[1] == xml_char(y)[1]);
            assert(all[2] == xml_char(x)[2] && all[2] == xml_char(y)[2]);
        }
        let n = xml_char(x).len() as int;
        assert(all.subrange(n, all.len() as int) =~= xml_escaped(s));
        assert(all.subrange(n, all.len() as int) =~= xml_escaped(t));
        law_escaping_can_be_undone(s, t);
    } else if a.len() > 0 {
        assert(a =~= seq![a[0]] + a.drop_first());
        lemma_escaped_first(a[0], a.drop_first());
    } else if b.len() > 0 {
        assert(b =~= seq![b[0]] + b.drop_first());
        lemma_escaped_first(b[0], b.drop_first());
    }
    assert(a =~= b);
}

proof fn lemma_gather_part(s: Seq<ElementView>, k: int)
    requires
        0 <= k < s.len(),
    ensures
        has_part(gather(s, drawing()), drawn(s[k])),
    decreases s.len(),
{
    let before = gather(s.drop_last(), drawing());
    let all = gather(s, drawing());
    let part = drawn(s[k]);
    if k < s.len() - 1 {
        lemma_gather_part(s.drop_last(), k);
        let at = choose|at: int| stands_at(before, part, at);
        assert(all.subrange(at, at + part.len()) =~= before.subrange(at, at + part.len()));
        assert(stands_at(all, part, at));
    } else {
        let at = before.len() as int;
        assert(all.subrange(at, at + part.len()) =~= part);
        assert(stands_at(all, part, at));
    }
}

/// Every element of a page stands in the page's drawing as it is drawn by
/// itself, at the place that layout gave it.
pub proof fn law_every_element_is_drawn(root: ElementView, width: int, k: int)
    requires
        0 <= k < preorder(laid_out(root, 0, 10 * svg_width(width))).len(),
    ensures
        has_part(
            svg_of(root, width),
            drawn(preorder(laid_out(root, 0, 10 * svg_width(width)))[k]),
        ),
{
    let across = 10 * svg_width(width);
    let nodes = preorder(laid_out(root, 0, across));
    lemma_gather_part(nodes, k);
    let head = svg_head(svg_width(width) as nat, svg_height(extent(root, across)) as nat);
    let body = gather(nodes, drawing());
    let part = drawn(nodes[k]);
    let all = svg_of(root, width);
    let at = choose|at: int| stands_at(body, part, at);
    assert(all.subrange(head.len() + at, head.len() + at + part.len()) =~= body.subrange(
        at,
        at + part.len(),
    ));
    assert(stands_at(all, part, head.len() + at));
}

/// A drawing depends on no earlier layout: whatever boxes a page has, it is
/// drawn as it would be without them.
pub proof fn law_drawing_forgets_earlier_boxes(
    root: ElementView,
    y: int,
    earlier_width: int,
    width: int,
)
    ensures
        svg_of(laid_out(root, y, earlier_width), width) == svg_of(root, width),
{
    let across = 10 * svg_width(width);
    law_layout_forgets_earlier_boxes(root, y, earlier_width, 0, across);
    law_height_forgets_earlier_boxes(root, y, earlier_width, across);
}

/// Escaping goes character by character: a text in two parts is written as
/// its parts; `&`, `<`, `>`, `"` and `'` as their entities, and every other
/// character as it is.
pub proof fn law_escaping_goes_by_character(a: Seq<char>, b: Seq<char>, c: char)
    ensures
        xml_escaped(a + b) == xml_escaped(a) + xml_escaped(b),
        xml_escaped(seq!['&']) == "&amp;"@,
        xml_escaped(seq!['<']) == "&lt;"@,
        xml_escaped(seq!['>']) == "&gt;"@,
        xml_escaped(seq!['"']) == "&quot;"@,
        xml_escaped(seq!['\'']) == "&apos;"@,
        c != '&' && c != '<' && c != '>' && c != '"' && c != '\'' ==> xml_escaped(seq![c])
            == seq![c],
        xml_escaped(Seq::empty()).len() == 0,
{
    lemma_gather_add(a, b, xml_chars());
    lemma_gather_one(c, xml_chars());
    lemma_gather_one('&', xml_chars());
    lemma_gather_one('<', xml_chars());
    lemma_gather_one('>', xml_chars());
    lemma_gather_one('"', xml_chars());
    lemma_gather_one('\'', xml_chars());
}

proof fn lemma_svg_lines(
    lines: Seq<Seq<char>>,
    top: nat,
    style: TagStyle,
    pieces: Seq<Seq<char>>,
)
    requires
        pieces.len() == lines.len(),
        forall|k: int|
            0 <= k < lines.len() ==> #[trigger] pieces[k] == svg_line(
                lines[k],
                (top + k * (13 * style.font_size) + 10 * style.font_size) as nat,
                style,
            ),
    ensures
        svg_lines(lines, top, style) == concat(pieces),
    decreases lines.len(),
{
    if lines.len() > 0 {
        let n = lines.len() - 1;
        assert forall|k: int| 0 <= k < n implies #[trigger] pieces.drop_last()[k] == svg_line(
            lines.drop_last()[k],
            (top + k * (13 * style.font_size) + 10 * style.font_size) as nat,
            style,
        ) by {
            assert(pieces.drop_last()[k] == pieces[k]);
        }
        lemma_svg_lines(lines.drop_last(), top, style, pieces.drop_last());
        assert(pieces[n] == pieces.last());
    }
}

/// What is drawn of an element without children is its text, wrapped at the
/// width of its box: one line below the other, each with its baseline a font
/// size below its top and 1.3 font sizes below the line before it, in the
/// size of its tag, bold or not as its tag is, and escaped.
pub proof fn law_text_is_drawn_line_by_line(e: ElementView, layout: Layout, pieces: Seq<Seq<char>>)
    requires
        e.layout == Some(layout),
        e.children.len() == 0,
        e.text.len() > 0,
        ({
            let style = style_of(e.tag);
            let lines = wrapped(
                e.text,
                chars_per_line(layout.width as int, style.font_size as int),
            );
            &&& pieces.len() == lines.len()
            &&& forall|k: int|
                0 <= k < lines.len() ==> #[trigger] pieces[k] == "<text x=\"0\" y=\""@ + tenths(
                    (layout.y + k * (13 * style.font_size) + 10 * style.font_size) as nat,
                ) + "\" font-size=\""@ + decimal(style.font_size as nat) + "px\" class=\""@ + (
                if style.bold {
                    "heading"@
                } else {
                    "muted"@
                }) + "\">"@ + xml_escaped(lines[k]) + "</text>\n"@
        }),
    ensures
        drawn(e) == concat(pieces),
{
    let style = style_of(e.tag);
    let lines = wrapped(e.text, chars_per_line(layout.width as int, style.font_size as int));
    lemma_svg_lines(lines, layout.y as nat, style, pieces);
}

/// Nothing is drawn of an element with children, without text or without a
/// box.
pub proof fn law_only_leaves_with_text_are_drawn(e: ElementView)
    requires
        e.children.len() > 0 || e.text.len() == 0 || e.layout is None,
    ensures
        drawn(e).len() == 0,
{
}

proof fn lemma_gathered(nodes: Seq<ElementView>, pieces: Seq<Seq<char>>)
    requires
        pieces.len() == nodes.len(),
        forall|k: int| 0 <= k < nodes.len() ==> #[trigger] pieces[k] == drawn(nodes[k]),
    ensures
        gather(nodes, drawing()) == concat(pieces),
    decreases nodes.len(),
{
    if nodes.len() > 0 {
        assert forall|k: int| 0 <= k < nodes.len() - 1 implies #[trigger] pieces.drop_last()[k]
            == drawn(nodes.drop_last()[k]) by {
            assert(pieces.drop_last()[k] == pieces[k]);
        }
        lemma_gathered(nodes.drop_last(), pieces.drop_last());
        assert(pieces[nodes.len() - 1] == pieces.last());
    }
}

/// A drawing is as wide as asked for, but no less than 320 pixels, and as
/// high as the page laid out at that width, in whole pixels, but no less than
/// 80. It holds what is drawn of each element of the page laid out at that
/// width, in document order, and nothing else.
pub proof fn law_drawing_holds_all_elements(root: ElementView, width: int, pieces: Seq<Seq<char>>)
    requires
        0 <= width,
        0 <= extent(root, 10 * svg_width(width)),
        ({
            let nodes = preorder(laid_out(root, 0, 10 * svg_width(width)));
            &&& pieces.len() == nodes.len()
            &&& forall|k: int| 0 <= k < nodes.len() ==> #[trigger] pieces[k] == drawn(nodes[k])
        }),
    ensures
        ({
            let across = svg_width(width);
            let height = extent(root, 10 * across);
            let down = svg_height(height);
            &&& across == if width > 320 {
                width
            } else {
                320
            }
            &&& down >= 80
            &&& down > 80 ==> height <= 10 * down < height + 10
            &&& 10 * down >= height
            &&& svg_of(root, width) == svg_head(across as nat, down as nat) + concat(pieces)
                + "</svg>\n"@
        }),
{
    lemma_gathered(preorder(laid_out(root, 0, 10 * svg_width(width))), pieces);
}

/// A length in tenths is written in decimal: its whole units, and a point and
/// a digit where there is a rest.
pub proof fn law_tenths_are_written_in_decimal(n: nat)
    ensures
        tenths(10 * n) == decimal(n),
        n % 10 > 0 ==> tenths(n) == decimal(n / 10) + "."@ + seq![('0' as u32 + n % 10) as char],
{
    assert((10 * n) % 10 == 0 && (10 * n) / 10 == n);
    if n % 10 > 0 {
        assert(decimal(n % 10) == seq![crate::text::digit(n % 10)]);
    }
}

} // verus!
