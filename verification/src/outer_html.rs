//! Elements written as HTML.

use crate::model::{lemma_children, Element, ElementView};
use crate::seqs::{concat, gather, lemma_gather_add, lemma_gather_one, lemma_gather_push};
use crate::text::{same_text, stands_at};
use vstd::prelude::*;

verus! {

/// What stands for a character in HTML text and attributes.
pub open spec fn html_char(c: char) -> Seq<char> {
    if c == '&' {
        "&amp;"@
    } else if c == '<' {
        "&lt;"@
    } else if c == '>' {
        "&gt;"@
    } else if c == '"' {
        "&quot;"@
    } else {
        seq![c]
    }
}

pub open spec fn html_chars() -> spec_fn(char) -> Seq<char> {
    |c: char| html_char(c)
}

/// A text as it is written in HTML.
pub open spec fn html_escaped(text: Seq<char>) -> Seq<char> {
    gather(text, html_chars())
}

/// Writes a text so that it can stand in HTML text and attributes.
pub fn html_escape(value: &str) -> (escaped: String)
    ensures
        escaped@ == html_escaped(value@),
{
    let mut escaped = String::new();
    assert(value@.take(0) =~= Seq::empty());
    for c in it: value.chars()
        invariant
            it.seq() == value@,
            escaped@ == html_escaped(value@.take(it.index() as int)),
    {
        proof {
            let i = it.index() as int;
            assert(value@.take(i + 1) =~= value@.take(i).push(c));
            lemma_gather_push(value@.take(i), c, html_chars());
        }
        let ghost held = escaped@;
        if c == '&' {
            escaped.append("&amp;");
        } else if c == '<' {
            escaped.append("&lt;");
        } else if c == '>' {
            escaped.append("&gt;");
        } else if c == '"' {
            escaped.append("&quot;");
        } else {
            escaped.push(c);
            assert(escaped@ =~= held + seq![c]);
        }
    }
    assert(value@.take(value@.len() as int) =~= value@);
    escaped
}

/// An attribute that is there, as a name and a value that follow one
/// another.
pub open spec fn attribute_pair(name: Seq<char>, value: Option<Seq<char>>) -> Seq<Seq<char>> {
    match value {
        Some(value) => seq![name, value],
        None => Seq::empty(),
    }
}

/// The name of the attribute that an element's address comes from.
pub open spec fn href_key(e: ElementView) -> Seq<char> {
    if e.tag == "form"@ {
        "action"@
    } else {
        "href"@
    }
}

/// The attributes of an element, each name followed by its value.
pub open spec fn attribute_pairs(e: ElementView) -> Seq<Seq<char>> {
    attribute_pair(href_key(e), e.href) + attribute_pair("value"@, e.value) + attribute_pair(
        "name"@,
        e.name,
    ) + attribute_pair("type"@, e.kind)
}

fn add_pair(pairs: &mut Vec<String>, name: &str, value: &Option<String>)
    ensures
        final(pairs).deep_view() == old(pairs).deep_view() + attribute_pair(
            name@,
            value.deep_view(),
        ),
{
    let ghost before = pairs.deep_view();
    if let Some(value) = value {
        pairs.push(name.to_owned());
        pairs.push(value.clone());
    }
    assert(pairs.deep_view() =~= before + attribute_pair(name@, value.deep_view()));
}

/// The attributes of an element, each name followed by its value.
pub fn element_attribute_pairs(element: &Element) -> (pairs: Vec<String>)
    ensures
        pairs.deep_view() == attribute_pairs(element.deep_view()),
{
    let mut pairs: Vec<String> = Vec::new();
    let key = if same_text(element.tag.as_str(), "form") { "action" } else { "href" };
    add_pair(&mut pairs, key, &element.href);
    assert(pairs.deep_view() =~= attribute_pair(key@, element.deep_view().href));
    add_pair(&mut pairs, "value", &element.value);
    add_pair(&mut pairs, "name", &element.name);
    add_pair(&mut pairs, "type", &element.kind);
    pairs
}

/// An attribute that is there, as it is written in a tag.
pub open spec fn attribute_html(name: Seq<char>, value: Option<Seq<char>>) -> Seq<char> {
    match value {
        Some(value) => " "@ + name + "=\""@ + html_escaped(value) + "\""@,
        None => Seq::empty(),
    }
}

/// The attributes of an element as they are written in its tag.
pub open spec fn attributes_html(e: ElementView) -> Seq<char> {
    attribute_html(href_key(e), e.href) + attribute_html("value"@, e.value) + attribute_html(
        "name"@,
        e.name,
    ) + attribute_html("type"@, e.kind)
}

/// An element written as HTML; the document is written as what is in it.
pub open spec fn html_of(e: ElementView) -> Seq<char>
    decreases e,
{
    if e.tag == "document"@ {
        html_of_all(e.children)
    } else {
        "<"@ + e.tag + attributes_html(e) + ">"@ + html_escaped(e.text) + html_of_all(e.children)
            + "</"@ + e.tag + ">"@
    }
}

pub open spec fn html_of_all(s: Seq<ElementView>) -> Seq<char>
    decreases s,
{
    if s.len() == 0 {
        Seq::empty()
    } else {
        html_of_all(s.drop_last()) + html_of(s.last())
    }
}

fn attribute_text(name: &str, value: &Option<String>) -> (s: String)
    ensures
        s@ == attribute_html(name@, value.deep_view()),
{
    match value {
        Some(value) => " ".to_owned().concat(name).concat("=\"").concat(
            html_escape(value.as_str()).as_str(),
        ).concat("\""),
        None => String::new(),
    }
}

/// Writes an element as HTML.
pub fn element_html(element: &Element) -> (html: String)
    ensures
        html@ == html_of(element.deep_view()),
    decreases element,
{
    let ghost e = element.deep_view();
    let mut inner = String::new();
    proof {
        lemma_children(element);
        assert(e.children.take(0) =~= Seq::empty());
    }
    for i in 0..element.children.len()
        invariant
            e.children == element.children.deep_view(),
            inner@ == html_of_all(e.children.take(i as int)),
    {
        proof {
            let now = e.children.take(i + 1);
            assert(now.drop_last() =~= e.children.take(i as int));
            assert(now.last() == element.children@[i as int].deep_view());
        }
        inner.append(element_html(&element.children[i]).as_str());
    }
    assert(e.children.take(e.children.len() as int) =~= e.children);
    if same_text(element.tag.as_str(), "document") {
        return inner;
    }
    let key = if same_text(element.tag.as_str(), "form") { "action" } else { "href" };
    let attributes = attribute_text(key, &element.href).concat(
        attribute_text("value", &element.value).as_str(),
    ).concat(attribute_text("name", &element.name).as_str()).concat(
        attribute_text("type", &element.kind).as_str(),
    );
    "<".to_owned().concat(element.tag.as_str()).concat(attributes.as_str()).concat(">").concat(
        html_escape(element.text.as_str()).as_str(),
    ).concat(inner.as_str()).concat("</").concat(element.tag.as_str()).concat(">")
}

/// No character that opens or closes a tag or an attribute is left in an
/// escaped text.
pub proof fn law_escaped_html_is_plain(text: Seq<char>, k: int)
    requires
        0 <= k < html_escaped(text).len(),
    ensures
        ({
            let c = html_escaped(text)[k];
            c != '<' && c != '>' && c != '"'
        }),
    decreases text.len(),
{
    reveal_strlit("&amp;");
    reveal_strlit("&lt;");
    reveal_strlit("&gt;");
    reveal_strlit("&quot;");
    let before = html_escaped(text.drop_last());
    if k < before.len() {
        law_escaped_html_is_plain(text.drop_last(), k);
    } else {
        assert(html_escaped(text)[k] == html_char(text.last())[k - before.len()]);
    }
}

proof fn lemma_html_first(c: char, rest: Seq<char>)
    ensures
        html_escaped(seq![c] + rest) == html_char(c) + html_escaped(rest),
{
    lemma_gather_add(seq![c], rest, html_chars());
    lemma_gather_one(c, html_chars());
}

/// Escaping loses nothing: texts that are written the same in HTML are the
/// same.
pub proof fn law_html_escaping_can_be_undone(a: Seq<char>, b: Seq<char>)
    requires
        html_escaped(a) == html_escaped(b),
    ensures
        a == b,
    decreases a.len(),
{
    reveal_strlit("&amp;");
    reveal_strlit("&lt;");
    reveal_strlit("&gt;");
    reveal_strlit("&quot;");
    if a.len() > 0 {
        assert(a =~= seq![a[0]] + a.drop_first());
        lemma_html_first(a[0], a.drop_first());
    }
    if b.len() > 0 {
        assert(b =~= seq![b[0]] + b.drop_first());
        lemma_html_first(b[0], b.drop_first());
    }
    if a.len() > 0 && b.len() > 0 {
        let all = html_escaped(a);
        let first = html_char(a[0]);
        let other = html_char(b[0]);
        assert(all[0] == first[0] && all[0] == other[0]);
        if a[0] != b[0] {
            assert(all[1] == first[1] && all[1] == other[1]);
        }
        let n = first.len() as int;
        assert(all.subrange(n, all.len() as int) =~= html_escaped(a.drop_first()));
        assert(all.subrange(n, all.len() as int) =~= html_escaped(b.drop_first()));
        law_html_escaping_can_be_undone(a.drop_first(), b.drop_first());
    }
    assert(a =~= b);
}

/// The text with every `part` in it, from the left, put as `by`.
pub open spec fn replaced(s: Seq<char>, part: Seq<char>, by: Seq<char>) -> Seq<char>
    decreases s.len(),
{
    if s.len() == 0 || part.len() == 0 {
        s
    } else if stands_at(s, part, 0) {
        by + replaced(s.skip(part.len() as int), part, by)
    } else {
        seq![s[0]] + replaced(s.drop_first(), part, by)
    }
}

/// A text as it was before it was written in HTML: the entities put as their
/// characters, `&amp;` last.
pub open spec fn html_unescaped(s: Seq<char>) -> Seq<char> {
    let less = replaced(s, "&lt;"@, "<"@);
    let greater = replaced(less, "&gt;"@, ">"@);
    let quoted = replaced(greater, "&quot;"@, "\""@);
    replaced(quoted, "&amp;"@, "&"@)
}

/// Whether no `part` can begin in a text, whatever follows it.
spec fn is_quiet(t: Seq<char>, part: Seq<char>) -> bool {
    &&& t.len() > 0 && part.len() > 1
    &&& t[0] != part[0] || t.len() > 1 && t[1] != part[1]
    &&& forall|i: int| 1 <= i < t.len() ==> #[trigger] t[i] != part[0]
}

proof fn lemma_quiet_is_kept(t: Seq<char>, tail: Seq<char>, part: Seq<char>, by: Seq<char>)
    requires
        t.len() > 0 ==> is_quiet(t, part),
    ensures
        replaced(t + tail, part, by) == t + replaced(tail, part, by),
    decreases t.len(),
{
    let s = t + tail;
    if t.len() == 0 {
        assert(s =~= tail);
        assert(t + replaced(tail, part, by) =~= replaced(tail, part, by));
    } else {
        assert(!stands_at(s, part, 0)) by {
            if stands_at(s, part, 0) {
                assert(s.subrange(0, part.len() as int)[0] == s[0]);
                assert(s.subrange(0, part.len() as int)[1] == s[1]);
            }
        }
        let rest = t.drop_first();
        assert(s.drop_first() =~= rest + tail);
        if rest.len() > 0 {
            assert(t[1] != part[0]);
            assert forall|i: int| 1 <= i < rest.len() implies #[trigger] rest[i] != part[0] by {
                assert(rest[i] == t[i + 1]);
            }
        }
        lemma_quiet_is_kept(rest, tail, part, by);
        assert(seq![t[0]] + (rest + replaced(tail, part, by)) =~= t + replaced(tail, part, by));
    }
}

proof fn lemma_replaced_in_all(
    text: Seq<char>,
    f: spec_fn(char) -> Seq<char>,
    g: spec_fn(char) -> Seq<char>,
    part: Seq<char>,
    by: Seq<char>,
)
    requires
        part.len() > 1,
        forall|c: char| #[trigger]
            f(c) == part && g(c) == by || f(c) == g(c) && is_quiet(f(c), part),
    ensures
        replaced(gather(text, f), part, by) == gather(text, g),
    decreases text.len(),
{
    if text.len() > 0 {
        let c = text[0];
        let rest = text.drop_first();
        assert(text =~= seq![c] + rest);
        lemma_gather_add(seq![c], rest, f);
        lemma_gather_one(c, f);
        lemma_gather_add(seq![c], rest, g);
        lemma_gather_one(c, g);
        lemma_replaced_in_all(rest, f, g, part, by);
        let tail = gather(rest, f);
        let all = f(c) + tail;
        if f(c) == part && g(c) == by {
            assert(all.subrange(0, part.len() as int) =~= part);
            assert(all.skip(part.len() as int) =~= tail);
        } else {
            lemma_quiet_is_kept(f(c), tail, part, by);
        }
    }
}

/// A character as it is written while the first `n` entities are undone.
spec fn partly_escaped(n: int) -> spec_fn(char) -> Seq<char> {
    |c: char|
        if n >= 1 && c == '<' || n >= 2 && c == '>' || n >= 3 && c == '"' || n >= 4 && c == '&' {
            seq![c]
        } else {
            html_char(c)
        }
}

proof fn lemma_gather_same_chars(text: Seq<char>, f: spec_fn(char) -> Seq<char>)
    requires
        forall|c: char| #[trigger] f(c) == seq![c],
    ensures
        gather(text, f) == text,
    decreases text.len(),
{
    if text.len() > 0 {
        lemma_gather_same_chars(text.drop_last(), f);
        assert(f(text.last()) == seq![text.last()]);
    }
    assert(gather(text, f) =~= text);
}

/// Putting the entities as their characters, `&amp;` last, gives back the
/// text that was escaped.
pub proof fn law_replacing_undoes_html_escaping(text: Seq<char>)
    ensures
        html_unescaped(html_escaped(text)) == text,
{
    reveal_strlit("&amp;");
    reveal_strlit("&lt;");
    reveal_strlit("&gt;");
    reveal_strlit("&quot;");
    reveal_strlit("<");
    reveal_strlit(">");
    reveal_strlit("\"");
    reveal_strlit("&");
    assert("<"@ =~= seq!['<']);
    assert(">"@ =~= seq!['>']);
    assert("\""@ =~= seq!['"']);
    assert("&"@ =~= seq!['&']);
    assert(html_chars() =~= partly_escaped(0));
    lemma_replaced_in_all(text, partly_escaped(0), partly_escaped(1), "&lt;"@, "<"@);
    lemma_replaced_in_all(text, partly_escaped(1), partly_escaped(2), "&gt;"@, ">"@);
    lemma_replaced_in_all(text, partly_escaped(2), partly_escaped(3), "&quot;"@, "\""@);
    lemma_replaced_in_all(text, partly_escaped(3), partly_escaped(4), "&amp;"@, "&"@);
    lemma_gather_same_chars(text, partly_escaped(4));
}

/// Escaping goes character by character: a text in two parts is written as
/// its parts, and every character but `&`, `<`, `>` and `"` as it is.
pub proof fn law_html_escaping_goes_by_character(a: Seq<char>, b: Seq<char>, c: char)
    ensures
        html_escaped(a + b) == html_escaped(a) + html_escaped(b),
        c != '&' && c != '<' && c != '>' && c != '"' ==> html_escaped(seq![c]) == seq![c],
{
    lemma_gather_add(a, b, html_chars());
    lemma_gather_one(c, html_chars());
}

/// In HTML `&`, `<`, `>` and `"` are written as their entities.
pub proof fn law_html_entities()
    ensures
        html_escaped(seq!['&']) == "&amp;"@,
        html_escaped(seq!['<']) == "&lt;"@,
        html_escaped(seq!['>']) == "&gt;"@,
        html_escaped(seq!['"']) == "&quot;"@,
        html_escaped(Seq::empty()).len() == 0,
{
    lemma_gather_one('&', html_chars());
    lemma_gather_one('<', html_chars());
    lemma_gather_one('>', html_chars());
    lemma_gather_one('"', html_chars());
}

proof fn lemma_html_of_all(s: Seq<ElementView>, pieces: Seq<Seq<char>>)
    requires
        pieces.len() == s.len(),
        forall|k: int| 0 <= k < s.len() ==> #[trigger] pieces[k] == html_of(s[k]),
    ensures
        html_of_all(s) == concat(pieces),
    decreases s.len(),
{
    if s.len() > 0 {
        assert forall|k: int| 0 <= k < s.len() - 1 implies #[trigger] pieces.drop_last()[k]
            == html_of(s.drop_last()[k]) by {
            assert(pieces.drop_last()[k] == pieces[k]);
        }
        lemma_html_of_all(s.drop_last(), pieces.drop_last());
        assert(pieces[s.len() - 1] == pieces.last());
    }
}

/// An element is written as its tag with its attributes, its text, its
/// children one after another, and its closing tag; the document as its
/// children alone. The attributes are its address, its value, its name and
/// its type, as far as it has them, each in quotes. Text and attributes are
/// escaped.
pub proof fn law_html_holds_all_of_an_element(e: ElementView, pieces: Seq<Seq<char>>)
    requires
        pieces.len() == e.children.len(),
        forall|k: int|
            0 <= k < e.children.len() ==> #[trigger] pieces[k] == html_of(e.children[k]),
    ensures
        ({
            let attribute = |name: Seq<char>, value: Option<Seq<char>>|
                match value {
                    Some(value) => " "@ + name + "=\""@ + html_escaped(value) + "\""@,
                    None => Seq::empty(),
                };
            &&& e.tag == "document"@ ==> html_of(e) == concat(pieces)
            &&& e.tag != "document"@ ==> html_of(e) == "<"@ + e.tag + (attribute(
                if e.tag == "form"@ {
                    "action"@
                } else {
                    "href"@
                },
                e.href,
            ) + attribute("value"@, e.value) + attribute("name"@, e.name) + attribute(
                "type"@,
                e.kind,
            )) + ">"@ + html_escaped(e.text) + concat(pieces) + "</"@ + e.tag + ">"@
        }),
{
    lemma_html_of_all(e.children, pieces);
}

/// The attributes of an element are given as names, each with its value
/// behind it: its address, its value, its name and its type, as far as it
/// has them, and nothing else.
pub proof fn law_attributes_are_given_in_pairs(e: ElementView)
    ensures
        ({
            let pairs = attribute_pairs(e);
            let a: int = if e.href is Some {
                2
            } else {
                0
            };
            let b: int = a + if e.value is Some {
                2int
            } else {
                0
            };
            let c: int = b + if e.name is Some {
                2int
            } else {
                0
            };
            let d: int = c + if e.kind is Some {
                2int
            } else {
                0
            };
            &&& pairs.len() == d
            &&& a > 0 ==> pairs[0] == (if e.tag == "form"@ {
                "action"@
            } else {
                "href"@
            }) && pairs[1] == e.href->0
            &&& b > a ==> pairs[a] == "value"@ && pairs[a + 1] == e.value->0
            &&& c > b ==> pairs[b] == "name"@ && pairs[b + 1] == e.name->0
            &&& d > c ==> pairs[c] == "type"@ && pairs[c + 1] == e.kind->0
        }),
{
}

} // verus!
