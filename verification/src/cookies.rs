//! Cookies read from `Set-Cookie` headers.

use crate::model::{CookieInfo, CookieView};
use crate::seqs::{gather, lemma_gather_lists, lemma_gather_push, lists};
use crate::text::{
    all_white_space, ascii_lower, cut, first_of, law_trimming_takes_off_white_space,
    lemma_split_not_empty, lemma_trimmed_between, lemma_trimmed_empty, same_text, split, split_on,
    split_once, to_ascii_lower, trim, trimmed, trimmed_end, trimmed_start, white_space,
};
use vstd::prelude::*;

verus! {

/// A cookie with no attributes.
pub open spec fn plain_cookie(name: Seq<char>, value: Seq<char>) -> CookieView {
    CookieView {
        name,
        value,
        domain: None,
        path: None,
        secure: false,
        http_only: false,
        same_site: None,
    }
}

/// The cookie with one more attribute taken in: `Domain`, `Path` and
/// `SameSite` have a value, `Secure` and `HttpOnly` have none, the names are
/// read in any case, and every other attribute is passed over.
pub open spec fn with_attribute(cookie: CookieView, attribute: Seq<char>) -> CookieView {
    let part = trimmed(attribute);
    match cut(part, '=') {
        Some((key, value)) => {
            let key = ascii_lower(trimmed(key));
            let value = trimmed(value);
            if key == "domain"@ {
                CookieView { domain: Some(value), ..cookie }
            } else if key == "path"@ {
                CookieView { path: Some(value), ..cookie }
            } else if key == "samesite"@ {
                CookieView { same_site: Some(value), ..cookie }
            } else {
                cookie
            }
        },
        None => {
            if ascii_lower(part) == "secure"@ {
                CookieView { secure: true, ..cookie }
            } else if ascii_lower(part) == "httponly"@ {
                CookieView { http_only: true, ..cookie }
            } else {
                cookie
            }
        },
    }
}

/// The cookie with the attributes taken in one after another.
pub open spec fn with_attributes(cookie: CookieView, attributes: Seq<Seq<char>>) -> CookieView
    decreases attributes.len(),
{
    if attributes.len() == 0 {
        cookie
    } else {
        with_attribute(with_attributes(cookie, attributes.drop_last()), attributes.last())
    }
}

/// The cookie that a `Set-Cookie` header sets: `name=value`, then attributes
/// after semicolons. `None` where there is no pair or its name is empty.
pub open spec fn cookie_of(raw: Seq<char>) -> Option<CookieView> {
    let parts = split(raw, ';');
    match cut(trimmed(parts[0]), '=') {
        Some((name, value)) if trimmed(name).len() > 0 => Some(
            with_attributes(plain_cookie(trimmed(name), trimmed(value)), parts.drop_first()),
        ),
        _ => None,
    }
}

fn take_attribute(cookie: &mut CookieInfo, attribute: &str)
    ensures
        final(cookie).deep_view() == with_attribute(old(cookie).deep_view(), attribute@),
{
    let part = trim(attribute);
    match split_once(part.as_str(), '=') {
        Some((key, value)) => {
            let key = to_ascii_lower(trim(key.as_str()).as_str());
            let value = trim(value.as_str());
            if same_text(key.as_str(), "domain") {
                cookie.domain = Some(value);
            } else if same_text(key.as_str(), "path") {
                cookie.path = Some(value);
            } else if same_text(key.as_str(), "samesite") {
                cookie.same_site = Some(value);
            }
        },
        None => {
            let flag = to_ascii_lower(part.as_str());
            if same_text(flag.as_str(), "secure") {
                cookie.secure = true;
            } else if same_text(flag.as_str(), "httponly") {
                cookie.http_only = true;
            }
        },
    }
}

/// Reads one `Set-Cookie` header value: `name=value; Attr=val; Flag`.
/// Returns `None` for a header with no `name=value` pair at all.
pub fn parse_set_cookie(raw: &str) -> (cookie: Option<CookieInfo>)
    ensures
        cookie.deep_view() == cookie_of(raw@),
{
    let parts = split_on(raw, ';');
    let ghost listed = parts.deep_view();
    assert(listed[0] == parts@[0]@);
    let first = trim(parts[0].as_str());
    match split_once(first.as_str(), '=') {
        Some((name, value)) => {
            let name = trim(name.as_str());
            if name.as_str().is_empty() {
                return None;
            }
            let mut cookie = CookieInfo {
                name,
                value: trim(value.as_str()),
                domain: None,
                path: None,
                secure: false,
                http_only: false,
                same_site: None,
            };
            let ghost start = cookie.deep_view();
            let ghost attributes = listed.drop_first();
            let mut i: usize = 1;
            assert(attributes.take(0) =~= Seq::empty());
            while i < parts.len()
                invariant
                    1 <= i <= parts@.len(),
                    listed == parts.deep_view(),
                    attributes == listed.drop_first(),
                    cookie.deep_view() == with_attributes(start, attributes.take(i - 1)),
                decreases parts@.len() - i,
            {
                take_attribute(&mut cookie, parts[i].as_str());
                proof {
                    assert(attributes.take(i as int).drop_last() =~= attributes.take(i - 1));
                    assert(attributes.take(i as int).last() == parts@[i as int]@);
                }
                i = i + 1;
            }
            assert(attributes.take(attributes.len() as int) =~= attributes);
            Some(cookie)
        },
        None => None,
    }
}

/// What one header adds to the cookies of a response.
pub open spec fn cookie_pick() -> spec_fn(Seq<char>) -> Seq<CookieView> {
    |raw: Seq<char>|
        match cookie_of(raw) {
            Some(cookie) => seq![cookie],
            None => Seq::empty(),
        }
}

/// The cookies that the `Set-Cookie` headers of a response set.
pub open spec fn cookies_in(headers: Seq<Seq<char>>) -> Seq<CookieView> {
    gather(headers, cookie_pick())
}

/// The cookies that a response's `Set-Cookie` headers set, in their order.
/// A header that sets none is passed over.
pub fn extract_cookies(headers: &Vec<String>) -> (cookies: Vec<CookieInfo>)
    ensures
        cookies.deep_view() == cookies_in(headers.deep_view()),
{
    let ghost f = cookie_pick();
    let ghost listed = headers.deep_view();
    let mut cookies: Vec<CookieInfo> = Vec::new();
    assert(listed.take(0) =~= Seq::empty());
    assert(cookies.deep_view() =~= gather(listed.take(0), f));
    for i in 0..headers.len()
        invariant
            listed == headers.deep_view(),
            f == cookie_pick(),
            cookies.deep_view() == gather(listed.take(i as int), f),
    {
        let ghost held = cookies.deep_view();
        proof {
            assert(listed.take(i + 1) =~= listed.take(i as int).push(headers@[i as int]@));
            lemma_gather_push(listed.take(i as int), headers@[i as int]@, f);
        }
        match parse_set_cookie(headers[i].as_str()) {
            Some(cookie) => {
                cookies.push(cookie);
            },
            None => {},
        }
        assert(cookies.deep_view() =~= held + f(headers@[i as int]@));
    }
    assert(listed.take(listed.len() as int) =~= listed);
    cookies
}

proof fn lemma_split_one(s: Seq<char>, separator: char)
    requires
        !s.contains(separator),
    ensures
        split(s, separator) == seq![s],
    decreases s.len(),
{
    if s.len() > 0 {
        assert(s.contains(s.last()));
        assert forall|c: char| s.drop_last().contains(c) implies s.contains(c) by {
            let k = choose|k: int| 0 <= k < s.drop_last().len() && s.drop_last()[k] == c;
            assert(s[k] == c);
        }
        lemma_split_one(s.drop_last(), separator);
        assert(seq![s.drop_last()].drop_last() =~= Seq::empty());
        assert(s.drop_last().push(s.last()) =~= s);
        assert(split(s, separator) =~= seq![s]);
    } else {
        assert(s =~= Seq::empty());
    }
}

proof fn lemma_first_of_at(s: Seq<char>, t: Seq<char>, c: char)
    requires
        !s.contains(c),
    ensures
        first_of(s + seq![c] + t, c) == s.len(),
    decreases s.len(),
{
    let all = s + seq![c] + t;
    if s.len() == 0 {
        assert(all[0] == c);
    } else {
        assert(s.contains(s[0]));
        assert forall|d: char| s.drop_first().contains(d) implies s.contains(d) by {
            let k = choose|k: int| 0 <= k < s.drop_first().len() && s.drop_first()[k] == d;
            assert(s[k + 1] == d);
        }
        lemma_first_of_at(s.drop_first(), t, c);
        assert(all.drop_first() =~= s.drop_first() + seq![c] + t);
        assert(all[0] == s[0]);
    }
}

/// A text that neither begins nor ends with white space.
pub open spec fn is_trimmed(s: Seq<char>) -> bool {
    s.len() > 0 ==> !white_space(s[0]) && !white_space(s.last())
}

/// A header that is a name, an equals sign and a value sets the cookie with
/// that name and that value, whatever further equals signs the value holds.
pub proof fn law_name_and_value_come_back(name: Seq<char>, value: Seq<char>)
    requires
        name.len() > 0,
        is_trimmed(name),
        is_trimmed(value),
        !name.contains('='),
        !name.contains(';'),
        !value.contains(';'),
    ensures
        cookie_of(name + seq!['='] + value) == Some(plain_cookie(name, value)),
{
    let raw = name + seq!['='] + value;
    assert(!raw.contains(';')) by {
        if raw.contains(';') {
            let k = choose|k: int| 0 <= k < raw.len() && raw[k] == ';';
            if k < name.len() {
                assert(name[k] == ';');
            } else if k > name.len() {
                assert(value[k - name.len() - 1] == ';');
            }
        }
    }
    lemma_split_one(raw, ';');
    assert(raw[0] == name[0]);
    assert(trimmed_start(raw) == raw);
    assert(raw.last() == if value.len() > 0 { value.last() } else { '=' });
    assert(trimmed_end(raw) == raw);
    lemma_first_of_at(name, value, '=');
    assert(raw.take(name.len() as int) =~= name);
    assert(raw.skip(name.len() as int + 1) =~= value);
    assert(trimmed(name) == name);
    assert(trimmed(value) == value);
    assert(split(raw, ';').drop_first() =~= Seq::empty());
}

proof fn lemma_split_push(s: Seq<char>, t: Seq<char>, separator: char)
    requires
        !t.contains(separator),
    ensures
        split(s, separator).len() > 0,
        split(s + seq![separator] + t, separator) == split(s, separator).push(t),
    decreases t.len(),
{
    lemma_split_not_empty(s, separator);
    let all = s + seq![separator] + t;
    if t.len() == 0 {
        assert(all.drop_last() =~= s);
        assert(t =~= Seq::empty());
    } else {
        let head = t.drop_last();
        assert(t.contains(t.last()));
        assert forall|c: char| head.contains(c) implies t.contains(c) by {
            let k = choose|k: int| 0 <= k < head.len() && head[k] == c;
            assert(t[k] == c);
        }
        lemma_split_push(s, head, separator);
        assert(all.drop_last() =~= s + seq![separator] + head);
        let before = split(s, separator).push(head);
        assert(before.drop_last() =~= split(s, separator));
        assert(head.push(t.last()) =~= t);
    }
}

proof fn lemma_parts(s: Seq<char>, separator: char, k: int)
    requires
        0 <= k < split(s, separator).len(),
    ensures
        !split(s, separator)[k].contains(separator),
    decreases s.len(),
{
    if s.len() > 0 {
        let head = s.drop_last();
        let before = split(head, separator);
        lemma_split_not_empty(head, separator);
        let part = split(s, separator)[k];
        if k < before.len() {
            lemma_parts(head, separator, k);
            if part.contains(separator) {
                let i = choose|i: int| 0 <= i < part.len() && part[i] == separator;
                assert(before[k][i] == separator);
            }
        }
    }
}

proof fn lemma_trimmed_start(s: Seq<char>)
    ensures
        trimmed_start(s).len() > 0 ==> !white_space(trimmed_start(s)[0]),
        forall|c: char| trimmed_start(s).contains(c) ==> #[trigger] s.contains(c),
    decreases s.len(),
{
    if s.len() > 0 && white_space(s[0]) {
        let rest = s.drop_first();
        lemma_trimmed_start(rest);
        assert forall|c: char| trimmed_start(s).contains(c) implies #[trigger] s.contains(c) by {
            assert(rest.contains(c));
            let k = choose|k: int| 0 <= k < rest.len() && rest[k] == c;
            assert(s[k + 1] == c);
        }
    }
}

proof fn lemma_trimmed_end(s: Seq<char>)
    ensures
        trimmed_end(s).len() > 0 ==> !white_space(trimmed_end(s).last()) && trimmed_end(s)[0]
            == s[0],
        forall|c: char| trimmed_end(s).contains(c) ==> #[trigger] s.contains(c),
    decreases s.len(),
{
    if s.len() > 0 && white_space(s.last()) {
        let head = s.drop_last();
        lemma_trimmed_end(head);
        assert forall|c: char| trimmed_end(s).contains(c) implies #[trigger] s.contains(c) by {
            assert(head.contains(c));
            let k = choose|k: int| 0 <= k < head.len() && head[k] == c;
            assert(s[k] == c);
        }
    }
}

/// A trimmed text neither begins nor ends with white space, and holds no
/// other characters.
proof fn lemma_trimmed(s: Seq<char>)
    ensures
        is_trimmed(trimmed(s)),
        forall|c: char| trimmed(s).contains(c) ==> #[trigger] s.contains(c),
{
    lemma_trimmed_start(s);
    lemma_trimmed_end(trimmed_start(s));
    assert forall|c: char| trimmed(s).contains(c) implies #[trigger] s.contains(c) by {
        assert(trimmed_start(s).contains(c));
    }
}

/// A text that can be written in a header and read back.
pub open spec fn is_field(s: Seq<char>) -> bool {
    is_trimmed(s) && !s.contains(';')
}

pub open spec fn is_optional_field(s: Option<Seq<char>>) -> bool {
    s is Some ==> is_field(s->0)
}

proof fn lemma_attributes_are_fields(cookie: CookieView, attributes: Seq<Seq<char>>)
    requires
        is_optional_field(cookie.domain),
        is_optional_field(cookie.path),
        is_optional_field(cookie.same_site),
        forall|k: int| 0 <= k < attributes.len() ==> !(#[trigger] attributes[k]).contains(';'),
    ensures
        ({
            let read = with_attributes(cookie, attributes);
            &&& read.name == cookie.name && read.value == cookie.value
            &&& is_optional_field(read.domain)
            &&& is_optional_field(read.path)
            &&& is_optional_field(read.same_site)
        }),
    decreases attributes.len(),
{
    if attributes.len() > 0 {
        let head = attributes.drop_last();
        assert forall|k: int| 0 <= k < head.len() implies !(#[trigger] head[k]).contains(';') by {
            assert(head[k] == attributes[k]);
        }
        lemma_attributes_are_fields(cookie, head);
        let last = attributes.last();
        assert(!attributes[attributes.len() - 1].contains(';'));
        let part = trimmed(last);
        lemma_trimmed(last);
        if let Some((key, value)) = cut(part, '=') {
            lemma_trimmed(value);
            if trimmed(value).contains(';') {
                assert(value.contains(';'));
                let k = choose|k: int| 0 <= k < value.len() && value[k] == ';';
                let at = first_of(part, '=');
                lemma_first_of_bounds(part, '=');
                assert(part[at + 1 + k] == ';');
                assert(part.contains(';'));
                assert(last.contains(';'));
            }
        }
    }
}

proof fn lemma_first_of_bounds(s: Seq<char>, c: char)
    ensures
        0 <= first_of(s, c) <= s.len(),
        !s.take(first_of(s, c)).contains(c),
    decreases s.len(),
{
    if s.len() > 0 && s[0] != c {
        let rest = s.drop_first();
        lemma_first_of_bounds(rest, c);
        let at = first_of(s, c);
        let start = s.take(at);
        if start.contains(c) {
            let k = choose|k: int| 0 <= k < start.len() && start[k] == c;
            assert(k > 0);
            assert(rest.take(at - 1)[k - 1] == c);
        }
    }
}

/// What a header reads as can be written in a header.
proof fn lemma_cookie_is_written(raw: Seq<char>)
    requires
        cookie_of(raw) is Some,
    ensures
        ({
            let cookie = cookie_of(raw)->0;
            &&& cookie.name.len() > 0 && is_field(cookie.name) && !cookie.name.contains('=')
            &&& is_field(cookie.value)
            &&& is_optional_field(cookie.domain)
            &&& is_optional_field(cookie.path)
            &&& is_optional_field(cookie.same_site)
        }),
{
    let parts = split(raw, ';');
    lemma_split_not_empty(raw, ';');
    lemma_parts(raw, ';', 0);
    let first = trimmed(parts[0]);
    lemma_trimmed(parts[0]);
    let at = first_of(first, '=');
    lemma_first_of_bounds(first, '=');
    let (name, value) = cut(first, '=')->0;
    lemma_trimmed(name);
    lemma_trimmed(value);
    assert(!first.contains(';')) by {
        if first.contains(';') {
            assert(parts[0].contains(';'));
        }
    }
    assert(!name.contains(';')) by {
        if name.contains(';') {
            let k = choose|k: int| 0 <= k < name.len() && name[k] == ';';
            assert(first[k] == ';');
        }
    }
    assert(!value.contains(';')) by {
        if value.contains(';') {
            let k = choose|k: int| 0 <= k < value.len() && value[k] == ';';
            assert(first[at + 1 + k] == ';');
        }
    }
    assert(!trimmed(name).contains(';') && !trimmed(name).contains('=')) by {
        if trimmed(name).contains(';') {
            assert(name.contains(';'));
        }
        if trimmed(name).contains('=') {
            assert(name.contains('='));
        }
    }
    assert(!trimmed(value).contains(';')) by {
        if trimmed(value).contains(';') {
            assert(value.contains(';'));
        }
    }
    let attributes = parts.drop_first();
    assert forall|k: int| 0 <= k < attributes.len() implies !(#[trigger] attributes[k]).contains(
        ';',
    ) by {
        lemma_parts(raw, ';', k + 1);
    }
    lemma_attributes_are_fields(plain_cookie(trimmed(name), trimmed(value)), attributes);
}

/// A header with one more attribute behind it.
pub open spec fn with_part(header: Seq<char>, part: Seq<char>) -> Seq<char> {
    header + seq![';'] + (seq![' '] + part)
}

/// A header with an attribute and its value behind it, where there is one.
pub open spec fn with_value_part(
    header: Seq<char>,
    name: Seq<char>,
    value: Option<Seq<char>>,
) -> Seq<char> {
    match value {
        Some(value) => with_part(header, name + seq!['='] + value),
        None => header,
    }
}

/// A header with a flag behind it, where it is set.
pub open spec fn with_flag_part(header: Seq<char>, name: Seq<char>, flag: bool) -> Seq<char> {
    if flag {
        with_part(header, name)
    } else {
        header
    }
}

/// The header that sets a cookie: its name and value, then its attributes.
pub open spec fn header_of(cookie: CookieView) -> Seq<char> {
    let pair = cookie.name + seq!['='] + cookie.value;
    let domain = with_value_part(pair, "Domain"@, cookie.domain);
    let path = with_value_part(domain, "Path"@, cookie.path);
    let same_site = with_value_part(path, "SameSite"@, cookie.same_site);
    let secure = with_flag_part(same_site, "Secure"@, cookie.secure);
    with_flag_part(secure, "HttpOnly"@, cookie.http_only)
}

proof fn lemma_trimmed_part(part: Seq<char>)
    requires
        part.len() > 0,
        is_trimmed(part),
    ensures
        trimmed(seq![' '] + part) == part,
{
    let s = seq![' '] + part;
    assert(s.drop_first() =~= part);
    assert(trimmed_start(part) == part);
    assert(trimmed_start(s) == trimmed_start(s.drop_first()));
    assert(trimmed_end(part) == part);
}

proof fn lemma_with_part(header: Seq<char>, cookie: CookieView, part: Seq<char>)
    requires
        cookie_of(header) == Some(cookie),
        part.len() > 0,
        is_field(part),
    ensures
        cookie_of(with_part(header, part)) == Some(with_attribute(cookie, seq![' '] + part)),
{
    let t = seq![' '] + part;
    assert(!t.contains(';')) by {
        if t.contains(';') {
            let k = choose|k: int| 0 <= k < t.len() && t[k] == ';';
            assert(part[k - 1] == ';');
        }
    }
    lemma_split_push(header, t, ';');
    let before = split(header, ';');
    let after = split(with_part(header, part), ';');
    assert(after == before.push(t));
    assert(after[0] == before[0]);
    assert(after.drop_first() =~= before.drop_first().push(t));
    assert(after.drop_first().drop_last() =~= before.drop_first());
}

proof fn lemma_value_part(name: Seq<char>, value: Seq<char>)
    requires
        name.len() > 0,
        is_field(name),
        !name.contains('='),
        is_field(value),
    ensures
        ({
            let part = name + seq!['='] + value;
            &&& part.len() > 0
            &&& is_field(part)
            &&& cut(part, '=') == Some((name, value))
        }),
{
    let part = name + seq!['='] + value;
    assert(part[0] == name[0]);
    assert(part.last() == if value.len() > 0 { value.last() } else { '=' });
    if part.contains(';') {
        let k = choose|k: int| 0 <= k < part.len() && part[k] == ';';
        if k < name.len() {
            assert(name[k] == ';');
        } else if k > name.len() {
            assert(value[k - name.len() - 1] == ';');
        }
    }
    lemma_first_of_at(name, value, '=');
    assert(part.take(name.len() as int) =~= name);
    assert(part.skip(name.len() as int + 1) =~= value);
}

proof fn lemma_no_cut(s: Seq<char>, c: char)
    requires
        !s.contains(c),
    ensures
        cut(s, c) is None,
    decreases s.len(),
{
    lemma_first_of_bounds(s, c);
    let at = first_of(s, c);
    if at < s.len() {
        lemma_first_of_stands(s, c);
        assert(s[at] == c);
    }
}

proof fn lemma_first_of_stands(s: Seq<char>, c: char)
    ensures
        first_of(s, c) < s.len() ==> s[first_of(s, c)] == c,
    decreases s.len(),
{
    if s.len() > 0 && s[0] != c {
        lemma_first_of_bounds(s.drop_first(), c);
        lemma_first_of_stands(s.drop_first(), c);
    }
}

proof fn lemma_words_of_attributes()
    ensures
        is_field("Domain"@) && !"Domain"@.contains('=') && ascii_lower("Domain"@) == "domain"@,
        is_field("Path"@) && !"Path"@.contains('=') && ascii_lower("Path"@) == "path"@,
        is_field("SameSite"@) && !"SameSite"@.contains('=') && ascii_lower("SameSite"@)
            == "samesite"@,
        is_field("Secure"@) && !"Secure"@.contains('=') && ascii_lower("Secure"@) == "secure"@,
        is_field("HttpOnly"@) && !"HttpOnly"@.contains('=') && ascii_lower("HttpOnly"@)
            == "httponly"@,
        "Domain"@.len() > 0 && "Path"@.len() > 0 && "SameSite"@.len() > 0,
        "Secure"@.len() > 0 && "HttpOnly"@.len() > 0,
        "domain"@ != "path"@ && "domain"@ != "samesite"@ && "path"@ != "samesite"@,
        "secure"@ != "httponly"@,
{
    reveal_strlit("Domain");
    reveal_strlit("domain");
    reveal_strlit("Path");
    reveal_strlit("path");
    reveal_strlit("SameSite");
    reveal_strlit("samesite");
    reveal_strlit("Secure");
    reveal_strlit("secure");
    reveal_strlit("HttpOnly");
    reveal_strlit("httponly");
    assert(ascii_lower("Domain"@) =~= "domain"@);
    assert(ascii_lower("Path"@) =~= "path"@);
    assert(ascii_lower("SameSite"@) =~= "samesite"@);
    assert(ascii_lower("Secure"@) =~= "secure"@);
    assert(ascii_lower("HttpOnly"@) =~= "httponly"@);
    assert("domain"@.len() == 6 && "path"@.len() == 4 && "samesite"@.len() == 8);
    assert("secure"@.len() == 6 && "httponly"@.len() == 8);
}

proof fn lemma_reads_value(header: Seq<char>, cookie: CookieView, name: Seq<char>, value: Seq<char>)
    requires
        cookie_of(header) == Some(cookie),
        name.len() > 0,
        is_field(name),
        !name.contains('='),
        is_field(value),
    ensures
        cookie_of(with_value_part(header, name, Some(value))) == Some(
            if ascii_lower(name) == "domain"@ {
                CookieView { domain: Some(value), ..cookie }
            } else if ascii_lower(name) == "path"@ {
                CookieView { path: Some(value), ..cookie }
            } else if ascii_lower(name) == "samesite"@ {
                CookieView { same_site: Some(value), ..cookie }
            } else {
                cookie
            },
        ),
{
    let part = name + seq!['='] + value;
    lemma_value_part(name, value);
    lemma_with_part(header, cookie, part);
    lemma_trimmed_part(part);
    assert(trimmed(name) == name);
    assert(trimmed(value) == value);
}

proof fn lemma_reads_flag(header: Seq<char>, cookie: CookieView, name: Seq<char>)
    requires
        cookie_of(header) == Some(cookie),
        name.len() > 0,
        is_field(name),
        !name.contains('='),
    ensures
        cookie_of(with_flag_part(header, name, true)) == Some(
            if ascii_lower(name) == "secure"@ {
                CookieView { secure: true, ..cookie }
            } else if ascii_lower(name) == "httponly"@ {
                CookieView { http_only: true, ..cookie }
            } else {
                cookie
            },
        ),
{
    lemma_with_part(header, cookie, name);
    lemma_trimmed_part(name);
    lemma_no_cut(name, '=');
}

/// A cookie that was read from a header is read again, with all that it has,
/// from the header that it is written as.
pub proof fn law_cookie_comes_back(raw: Seq<char>)
    requires
        cookie_of(raw) is Some,
    ensures
        cookie_of(header_of(cookie_of(raw)->0)) == cookie_of(raw),
{
    let cookie = cookie_of(raw)->0;
    lemma_cookie_is_written(raw);
    lemma_words_of_attributes();
    law_name_and_value_come_back(cookie.name, cookie.value);
    let pair = cookie.name + seq!['='] + cookie.value;
    let c0 = plain_cookie(cookie.name, cookie.value);
    let domain = with_value_part(pair, "Domain"@, cookie.domain);
    let c1 = CookieView { domain: cookie.domain, ..c0 };
    if cookie.domain is Some {
        lemma_reads_value(pair, c0, "Domain"@, cookie.domain->0);
    }
    assert(cookie_of(domain) == Some(c1));
    let path = with_value_part(domain, "Path"@, cookie.path);
    let c2 = CookieView { path: cookie.path, ..c1 };
    if cookie.path is Some {
        lemma_reads_value(domain, c1, "Path"@, cookie.path->0);
    }
    assert(cookie_of(path) == Some(c2));
    let same_site = with_value_part(path, "SameSite"@, cookie.same_site);
    let c3 = CookieView { same_site: cookie.same_site, ..c2 };
    if cookie.same_site is Some {
        lemma_reads_value(path, c2, "SameSite"@, cookie.same_site->0);
    }
    assert(cookie_of(same_site) == Some(c3));
    let secure = with_flag_part(same_site, "Secure"@, cookie.secure);
    let c4 = CookieView { secure: cookie.secure, ..c3 };
    if cookie.secure {
        lemma_reads_flag(same_site, c3, "Secure"@);
    }
    assert(cookie_of(secure) == Some(c4));
    if cookie.http_only {
        lemma_reads_flag(secure, c4, "HttpOnly"@);
    }
}

proof fn lemma_trimmed_pair(name: Seq<char>, value: Seq<char>) -> (ends: (Seq<char>, Seq<char>))
    requires
        !name.contains('='),
    ensures
        trimmed(name + seq!['='] + value) == ends.0 + seq!['='] + ends.1,
        !ends.0.contains('='),
        trimmed(ends.0) == trimmed(name),
        trimmed(ends.1) == trimmed(value),
{
    let (a, b) = lemma_trimmed_between(name);
    let (c, d) = lemma_trimmed_between(value);
    let n = trimmed(name);
    let v = trimmed(value);
    let whole = name + seq!['='] + value;
    let none = Seq::<char>::empty();
    let left = if n.len() > 0 {
        n + b
    } else {
        none
    };
    let right = if v.len() > 0 {
        c + v
    } else {
        none
    };
    let core = left + seq!['='] + right;
    let before = if n.len() > 0 {
        a
    } else {
        name
    };
    let behind = if v.len() > 0 {
        d
    } else {
        value
    };
    lemma_trimmed_empty(name);
    lemma_trimmed_empty(value);
    assert(whole =~= before + core + behind);
    if n.len() > 0 {
        assert(core[0] == n[0]);
    } else {
        assert(core[0] == '=');
    }
    if v.len() > 0 {
        assert(core.last() == v.last());
    } else {
        assert(core.last() == '=');
    }
    law_trimming_takes_off_white_space(before, core, behind);
    if n.len() > 0 {
        assert(none + n + b =~= left);
        law_trimming_takes_off_white_space(none, n, b);
    } else {
        assert(none + none + none =~= left);
        law_trimming_takes_off_white_space(none, none, none);
        assert(n =~= none);
    }
    if v.len() > 0 {
        assert(c + v + none =~= right);
        law_trimming_takes_off_white_space(c, v, none);
    } else {
        assert(none + none + none =~= right);
        law_trimming_takes_off_white_space(none, none, none);
        assert(v =~= none);
    }
    if left.contains('=') {
        let k = choose|k: int| 0 <= k < left.len() && left[k] == '=';
        assert(name[a.len() + k] == left[k]);
    }
    (left, right)
}

/// A header that is a name, an equals sign and a value sets the cookie of
/// that name and that value, each without the white space around it; a name
/// of white space sets none, and neither does a header without an equals
/// sign.
pub proof fn law_header_sets_a_cookie(name: Seq<char>, value: Seq<char>)
    requires
        !name.contains('='),
        !name.contains(';'),
        !value.contains(';'),
    ensures
        cookie_of(name) is None,
        all_white_space(name) ==> cookie_of(name + seq!['='] + value) is None,
        !all_white_space(name) ==> cookie_of(name + seq!['='] + value) == Some(
            CookieView {
                name: trimmed(name),
                value: trimmed(value),
                domain: None,
                path: None,
                secure: false,
                http_only: false,
                same_site: None,
            },
        ),
{
    let raw = name + seq!['='] + value;
    assert(!raw.contains(';')) by {
        if raw.contains(';') {
            let k = choose|k: int| 0 <= k < raw.len() && raw[k] == ';';
            if k < name.len() {
                assert(name[k] == ';');
            } else if k > name.len() {
                assert(value[k - name.len() - 1] == ';');
            }
        }
    }
    lemma_split_one(raw, ';');
    lemma_split_one(name, ';');
    lemma_trimmed(name);
    if trimmed(name).contains('=') {
        assert(name.contains('='));
    }
    lemma_no_cut(trimmed(name), '=');
    let (left, right) = lemma_trimmed_pair(name, value);
    lemma_first_of_at(left, right, '=');
    let both = left + seq!['='] + right;
    assert(both.take(left.len() as int) =~= left);
    assert(both.skip(left.len() as int + 1) =~= right);
    lemma_trimmed_empty(name);
    assert(split(raw, ';').drop_first() =~= Seq::empty());
}

proof fn lemma_more_parts(header: Seq<char>, cookie: CookieView, part: Seq<char>)
    requires
        cookie_of(header) == Some(cookie),
        !part.contains(';'),
    ensures
        cookie_of(header + seq![';'] + part) == Some(with_attribute(cookie, part)),
{
    lemma_split_push(header, part, ';');
    let before = split(header, ';');
    let after = split(header + seq![';'] + part, ';');
    assert(after[0] == before[0]);
    assert(after.drop_first() =~= before.drop_first().push(part));
    assert(after.drop_first().drop_last() =~= before.drop_first());
}

/// What stands behind a semicolon changes a cookie in the one way that it
/// names: `Domain`, `Path` and `SameSite`, in any case and with any white
/// space around them, take the value behind the equals sign in place of any
/// earlier one, and every other name with a value changes nothing.
pub proof fn law_attribute_has_a_value(
    header: Seq<char>,
    cookie: CookieView,
    key: Seq<char>,
    value: Seq<char>,
)
    requires
        cookie_of(header) == Some(cookie),
        !key.contains('='),
        !key.contains(';'),
        !value.contains(';'),
    ensures
        ({
            let read = cookie_of(header + seq![';'] + (key + seq!['='] + value));
            let word = ascii_lower(trimmed(key));
            let known = word == "domain"@ || word == "path"@ || word == "samesite"@;
            &&& word == "domain"@ ==> read == Some(
                CookieView { domain: Some(trimmed(value)), ..cookie },
            )
            &&& word == "path"@ ==> read == Some(
                CookieView { path: Some(trimmed(value)), ..cookie },
            )
            &&& word == "samesite"@ ==> read == Some(
                CookieView { same_site: Some(trimmed(value)), ..cookie },
            )
            &&& !known ==> read == Some(cookie)
        }),
{
    let part = key + seq!['='] + value;
    if part.contains(';') {
        let k = choose|k: int| 0 <= k < part.len() && part[k] == ';';
        if k < key.len() {
            assert(key[k] == ';');
        } else if k > key.len() {
            assert(value[k - key.len() - 1] == ';');
        }
    }
    lemma_more_parts(header, cookie, part);
    lemma_words_of_attributes();
    let (left, right) = lemma_trimmed_pair(key, value);
    lemma_first_of_at(left, right, '=');
    let both = left + seq!['='] + right;
    assert(both.take(left.len() as int) =~= left);
    assert(both.skip(left.len() as int + 1) =~= right);
}

/// Behind a semicolon and without an equals sign, `Secure` and `HttpOnly` set
/// what they name, in any case and with any white space around them, and
/// every other word changes nothing.
pub proof fn law_attribute_is_a_flag(header: Seq<char>, cookie: CookieView, flag: Seq<char>)
    requires
        cookie_of(header) == Some(cookie),
        !flag.contains('='),
        !flag.contains(';'),
    ensures
        ({
            let read = cookie_of(header + seq![';'] + flag);
            let word = ascii_lower(trimmed(flag));
            &&& word == "secure"@ ==> read == Some(CookieView { secure: true, ..cookie })
            &&& word == "httponly"@ ==> read == Some(CookieView { http_only: true, ..cookie })
            &&& word != "secure"@ && word != "httponly"@ ==> read == Some(cookie)
        }),
{
    lemma_more_parts(header, cookie, flag);
    lemma_words_of_attributes();
    lemma_trimmed(flag);
    if trimmed(flag).contains('=') {
        assert(flag.contains('='));
    }
    lemma_no_cut(trimmed(flag), '=');
}

/// A response sets the cookies of its headers, each that sets one, in their
/// order, and no other.
pub proof fn law_each_header_counts(headers: Seq<Seq<char>>)
    ensures
        lists(
            cookies_in(headers),
            headers,
            |raw: Seq<char>| cookie_of(raw) is Some,
            |raw: Seq<char>| cookie_of(raw)->0,
        ),
{
    lemma_gather_lists(
        headers,
        cookie_pick(),
        |raw: Seq<char>| cookie_of(raw) is Some,
        |raw: Seq<char>| cookie_of(raw)->0,
    );
}

} // verus!
