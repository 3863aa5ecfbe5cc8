//! Form fields written as a query string, and the address that a form is
//! submitted to.

use crate::seqs::{concat, gather, lemma_gather_add, lemma_gather_one};
use crate::text::has_char;
use vstd::prelude::*;
use vstd::utf8::encode_utf8;

verus! {

/// Whether a byte is written in a query string as it is: letters, digits and
/// `*`, `-`, `.`, `_`.
pub open spec fn is_plain_byte(b: u8) -> bool {
    ||| 0x30 <= b <= 0x39
    ||| 0x41 <= b <= 0x5a
    ||| 0x61 <= b <= 0x7a
    ||| b == 0x2a || b == 0x2d || b == 0x2e || b == 0x5f
}

/// A hexadecimal digit.
pub open spec fn hex_digit(n: int) -> char {
    if n < 10 {
        (0x30 + n) as char
    } else {
        (0x41 + n - 10) as char
    }
}

/// What stands for a byte in a query string.
pub open spec fn form_byte(b: u8) -> Seq<char> {
    if is_plain_byte(b) {
        seq![b as char]
    } else if b == 0x20 {
        seq!['+']
    } else {
        seq!['%', hex_digit(b as int / 16), hex_digit(b as int % 16)]
    }
}

/// A text as it is written in a query string: the encoding
/// `application/x-www-form-urlencoded` of its UTF-8 bytes.
pub open spec fn form_encoded(text: Seq<char>) -> Seq<char> {
    gather(encode_utf8(text), |b: u8| form_byte(b))
}

/// A name and its value, as they are written in a query string.
pub open spec fn form_pair(name: Seq<char>, value: Seq<char>) -> Seq<char> {
    form_encoded(name) + "="@ + form_encoded(value)
}

/// The query string of names and their values, in order.
pub open spec fn query_of(pairs: Seq<(Seq<char>, Seq<char>)>) -> Seq<char>
    decreases pairs.len(),
{
    if pairs.len() == 0 {
        Seq::empty()
    } else {
        let pair = form_pair(pairs.last().0, pairs.last().1);
        if pairs.len() == 1 {
            pair
        } else {
            query_of(pairs.drop_last()) + "&"@ + pair
        }
    }
}

/// Calls `url::form_urlencoded::Serializer::append_pair` on a serializer
/// that begins with `query`: it adds the encoded name, `=` and the encoded
/// value, after a `&` where there is something already.
#[verifier::external_body]
fn append_pair(query: String, name: &str, value: &str) -> (longer: String)
    ensures
        query@.len() == 0 ==> longer@ == form_encoded(name@) + "="@ + form_encoded(value@),
        query@.len() > 0 ==> longer@ == query@ + "&"@ + (form_encoded(name@) + "="@ + form_encoded(
            value@,
        )),
{
    url::form_urlencoded::Serializer::new(query).append_pair(name, value).finish()
}

proof fn lemma_query_is_empty(pairs: Seq<(Seq<char>, Seq<char>)>)
    ensures
        query_of(pairs).len() == 0 <==> pairs.len() == 0,
{
    reveal_strlit("=");
}

/// The query string of names and their values, in order.
pub fn encode_query(pairs: &Vec<(String, String)>) -> (query: String)
    ensures
        query@ == query_of(pairs.deep_view()),
{
    let ghost listed = pairs.deep_view();
    let mut query = String::new();
    assert(query@ =~= query_of(listed.take(0)));
    for i in 0..pairs.len()
        invariant
            listed == pairs.deep_view(),
            query@ == query_of(listed.take(i as int)),
    {
        proof {
            lemma_query_is_empty(listed.take(i as int));
            assert(listed.take(i + 1).drop_last() =~= listed.take(i as int));
            assert(listed.take(i + 1).last() == pairs@[i as int].deep_view());
        }
        query = append_pair(query, pairs[i].0.as_str(), pairs[i].1.as_str());
    }
    assert(listed.take(listed.len() as int) =~= listed);
    query
}

/// Where a form is submitted to: its action with the query behind it.
pub open spec fn submission_target(action_url: Seq<char>, query: Seq<char>) -> Seq<char> {
    if query.len() == 0 {
        action_url
    } else if action_url.contains('?') {
        action_url + "&"@ + query
    } else {
        action_url + "?"@ + query
    }
}

/// Where a form is submitted to: its action with the query behind it.
pub fn submission_url(action_url: &str, query: &str) -> (target: String)
    ensures
        target@ == submission_target(action_url@, query@),
{
    if query.is_empty() {
        action_url.to_owned()
    } else if has_char(action_url, '?') {
        action_url.to_owned().concat("&").concat(query)
    } else {
        action_url.to_owned().concat("?").concat(query)
    }
}

/// A form with fields is submitted with a query, a form without with none.
pub proof fn law_query_only_with_fields(pairs: Seq<(Seq<char>, Seq<char>)>, action_url: Seq<char>)
    ensures
        pairs.len() == 0 <==> query_of(pairs).len() == 0,
        pairs.len() == 0 ==> submission_target(action_url, query_of(pairs)) == action_url,
        pairs.len() > 0 ==> submission_target(action_url, query_of(pairs)).len()
            > action_url.len(),
{
    lemma_query_is_empty(pairs);
}

/// The query string of two lists of fields, one behind the other, is that of
/// the first, `&` and that of the second; of one field it is its name, `=`
/// and its value, encoded.
pub proof fn law_query_goes_by_field(
    a: Seq<(Seq<char>, Seq<char>)>,
    b: Seq<(Seq<char>, Seq<char>)>,
    name: Seq<char>,
    value: Seq<char>,
)
    ensures
        query_of(seq![(name, value)]) == form_encoded(name) + "="@ + form_encoded(value),
        query_of(Seq::empty()).len() == 0,
        a.len() > 0 && b.len() > 0 ==> query_of(a + b) == query_of(a) + "&"@ + query_of(b),
    decreases b.len(),
{
    assert(seq![(name, value)].last() == (name, value));
    if a.len() > 0 && b.len() > 0 {
        assert((a + b).drop_last() =~= a + b.drop_last());
        assert((a + b).last() == b.last());
        if b.len() == 1 {
            assert(a + b.drop_last() =~= a);
        } else {
            law_query_goes_by_field(a, b.drop_last(), name, value);
            let pair = form_pair(b.last().0, b.last().1);
            assert(query_of(a + b) =~= query_of(a) + "&"@ + query_of(b.drop_last()) + "&"@ + pair);
            assert(query_of(a + b) =~= query_of(a) + "&"@ + query_of(b));
        }
    }
}

proof fn lemma_form_byte(a: u8, b: u8, s: Seq<char>, t: Seq<char>)
    requires
        form_byte(a) + s == form_byte(b) + t,
    ensures
        a == b,
        s == t,
{
    let x = form_byte(a) + s;
    let y = form_byte(b) + t;
    assert(x[0] == form_byte(a)[0]);
    assert(y[0] == form_byte(b)[0]);
    if form_byte(a).len() == 3 {
        assert(x[0] == '%');
        assert(x[1] == form_byte(a)[1] && x[2] == form_byte(a)[2]);
    }
    if form_byte(b).len() == 3 {
        assert(y[0] == '%');
        assert(y[1] == form_byte(b)[1] && y[2] == form_byte(b)[2]);
    }
    assert(a == b);
    assert(x.skip(form_byte(a).len() as int) =~= s);
    assert(y.skip(form_byte(b).len() as int) =~= t);
}

proof fn lemma_bytes_come_back(a: Seq<u8>, b: Seq<u8>)
    requires
        gather(a, |b: u8| form_byte(b)) == gather(b, |b: u8| form_byte(b)),
    ensures
        a == b,
    decreases a.len(),
{
    let f = |b: u8| form_byte(b);
    if a.len() > 0 {
        lemma_gather_add(seq![a[0]], a.skip(1), f);
        lemma_gather_one(a[0], f);
        assert(seq![a[0]] + a.skip(1) =~= a);
    }
    if b.len() > 0 {
        lemma_gather_add(seq![b[0]], b.skip(1), f);
        lemma_gather_one(b[0], f);
        assert(seq![b[0]] + b.skip(1) =~= b);
    }
    if a.len() > 0 && b.len() > 0 {
        lemma_form_byte(a[0], b[0], gather(a.skip(1), f), gather(b.skip(1), f));
        lemma_bytes_come_back(a.skip(1), b.skip(1));
        assert(a =~= seq![a[0]] + a.skip(1));
        assert(b =~= seq![b[0]] + b.skip(1));
    } else {
        if a.len() > 0 {
            assert(gather(b, f).len() == 0);
            assert(f(a[0]).len() > 0);
        }
        if b.len() > 0 {
            assert(gather(a, f).len() == 0);
            assert(f(b[0]).len() > 0);
        }
        assert(a =~= b);
    }
}

/// No two texts are written alike in a query string.
pub proof fn law_encoding_can_be_undone(a: Seq<char>, b: Seq<char>)
    requires
        form_encoded(a) == form_encoded(b),
    ensures
        a == b,
{
    lemma_bytes_come_back(encode_utf8(a), encode_utf8(b));
    vstd::utf8::encode_utf8_decode_utf8(a);
    vstd::utf8::encode_utf8_decode_utf8(b);
}

proof fn lemma_encoded_chars(bytes: Seq<u8>, k: int)
    requires
        0 <= k < gather(bytes, |b: u8| form_byte(b)).len(),
    ensures
        ({
            let c = gather(bytes, |b: u8| form_byte(b))[k];
            ||| '0' <= c <= '9'
            ||| 'A' <= c <= 'Z'
            ||| 'a' <= c <= 'z'
            ||| c == '*' || c == '-' || c == '.' || c == '_' || c == '+' || c == '%'
        }),
    decreases bytes.len(),
{
    let f = |b: u8| form_byte(b);
    if bytes.len() > 0 {
        let head = gather(bytes.drop_last(), f);
        if k < head.len() {
            lemma_encoded_chars(bytes.drop_last(), k);
        } else {
            let piece = form_byte(bytes.last());
            assert(gather(bytes, f)[k] == piece[k - head.len()]);
        }
    }
}

/// What a text is written with in a query string: letters, digits, `*`, `-`,
/// `.`, `_`, `+` and `%`; so neither `&` nor `=`, which stand between fields
/// and between a name and its value.
pub proof fn law_encoded_text_is_plain(text: Seq<char>, k: int)
    requires
        0 <= k < form_encoded(text).len(),
    ensures
        ({
            let c = form_encoded(text)[k];
            ||| '0' <= c <= '9'
            ||| 'A' <= c <= 'Z'
            ||| 'a' <= c <= 'z'
            ||| c == '*' || c == '-' || c == '.' || c == '_' || c == '+' || c == '%'
        }),
{
    lemma_encoded_chars(encode_utf8(text), k);
}

proof fn lemma_split_once(a: Seq<char>, b: Seq<char>, s: Seq<char>, t: Seq<char>, c: char)
    requires
        a + seq![c] + b == s + seq![c] + t,
        !b.contains(c),
        !t.contains(c),
    ensures
        a == s,
        b == t,
{
    let x = a + seq![c] + b;
    let y = s + seq![c] + t;
    assert(x == y);
    assert(x.len() == a.len() + 1 + b.len() && y.len() == s.len() + 1 + t.len());
    assert(x[a.len() as int] == c && y[s.len() as int] == c);
    if a.len() < s.len() {
        let k = s.len() - a.len() - 1;
        assert(x[s.len() as int] == b[k]);
        assert(b.contains(c));
    }
    if s.len() < a.len() {
        let k = a.len() - s.len() - 1;
        assert(y[a.len() as int] == t[k]);
        assert(t.contains(c));
    }
    assert(a =~= x.take(a.len() as int));
    assert(s =~= y.take(s.len() as int));
    assert(b =~= x.skip(1 + a.len() as int));
    assert(t =~= y.skip(1 + s.len() as int));
}

proof fn lemma_pair_comes_back(a: (Seq<char>, Seq<char>), b: (Seq<char>, Seq<char>))
    ensures
        !form_pair(a.0, a.1).contains('&'),
        form_pair(a.0, a.1) == form_pair(b.0, b.1) ==> a == b,
{
    reveal_strlit("=");
    let x = form_encoded(a.0);
    let y = form_encoded(a.1);
    let u = form_encoded(b.1);
    assert forall|k: int| 0 <= k < x.len() implies x[k] != '&' by {
        law_encoded_text_is_plain(a.0, k);
    }
    assert forall|k: int| 0 <= k < y.len() implies y[k] != '&' && y[k] != '=' by {
        law_encoded_text_is_plain(a.1, k);
    }
    assert forall|k: int| 0 <= k < u.len() implies u[k] != '=' by {
        law_encoded_text_is_plain(b.1, k);
    }
    assert("="@ =~= seq!['=']);
    if form_pair(a.0, a.1) == form_pair(b.0, b.1) {
        lemma_split_once(x, y, form_encoded(b.0), u, '=');
        law_encoding_can_be_undone(a.0, b.0);
        law_encoding_can_be_undone(a.1, b.1);
    }
}

/// A query string tells the fields: no two lists of fields have the same,
/// so that each name and each value counts, and their order.
pub proof fn law_query_tells_the_fields(
    a: Seq<(Seq<char>, Seq<char>)>,
    b: Seq<(Seq<char>, Seq<char>)>,
)
    requires
        query_of(a) == query_of(b),
    ensures
        a == b,
    decreases a.len(),
{
    lemma_query_is_empty(a);
    lemma_query_is_empty(b);
    reveal_strlit("&");
    assert("&"@ =~= seq!['&']);
    if a.len() == 0 {
        assert(a =~= b);
    } else {
        let x = form_pair(a.last().0, a.last().1);
        let y = form_pair(b.last().0, b.last().1);
        lemma_pair_comes_back(a.last(), b.last());
        lemma_pair_comes_back(b.last(), a.last());
        if a.len() > 1 {
            let q = query_of(a);
            assert(q[query_of(a.drop_last()).len() as int] == '&');
            assert(q.contains('&'));
        }
        if b.len() > 1 {
            let q = query_of(b);
            assert(q[query_of(b.drop_last()).len() as int] == '&');
            assert(q.contains('&'));
        }
        if a.len() > 1 && b.len() > 1 {
            lemma_split_once(query_of(a.drop_last()), x, query_of(b.drop_last()), y, '&');
            law_query_tells_the_fields(a.drop_last(), b.drop_last());
            assert(a =~= a.drop_last().push(a.last()));
            assert(b =~= b.drop_last().push(b.last()));
        } else {
            assert(a.len() == 1 && b.len() == 1);
            assert(a =~= b);
        }
    }
}

/// A form is submitted to its action with the query behind it: behind `?`,
/// or behind `&` where the action has a query already.
pub proof fn law_query_stands_behind_the_action(action_url: Seq<char>, query: Seq<char>)
    requires
        query.len() > 0,
    ensures
        submission_target(action_url, query).len() == action_url.len() + 1 + query.len(),
        submission_target(action_url, query).take(action_url.len() as int) == action_url,
        submission_target(action_url, query).skip(1 + action_url.len() as int) == query,
        submission_target(action_url, query)[action_url.len() as int] == '&'
            || submission_target(action_url, query)[action_url.len() as int] == '?',
        submission_target(action_url, query)[action_url.len() as int] == '&' <==> exists|k: int|
            0 <= k < action_url.len() && #[trigger] action_url[k] == '?',
{
    reveal_strlit("&");
    reveal_strlit("?");
    let target = submission_target(action_url, query);
    assert(target.take(action_url.len() as int) =~= action_url);
    assert(target.skip(1 + action_url.len() as int) =~= query);
}

/// A byte is written in a query string as itself where it is an ASCII letter,
/// a digit or one of `*`, `-`, `.` and `_`; the space as `+`; and every other
/// byte as `%` and its two hexadecimal digits.
pub proof fn law_bytes_are_written_for_forms(b: u8)
    ensures
        ({
            let c = b as char;
            let plain = '0' <= c <= '9' || 'A' <= c <= 'Z' || 'a' <= c <= 'z' || c == '*' || c
                == '-' || c == '.' || c == '_';
            let digits = "0123456789ABCDEF"@;
            &&& plain ==> form_byte(b) == seq![c]
            &&& c == ' ' ==> form_byte(b) == seq!['+']
            &&& !plain && c != ' ' ==> form_byte(b) == seq![
                '%',
                digits[b as int / 16],
                digits[b as int % 16],
            ]
        }),
{
    reveal_strlit("0123456789ABCDEF");
    let digits = "0123456789ABCDEF"@;
    assert(digits[0] == '0' && digits[1] == '1' && digits[2] == '2' && digits[3] == '3'
        && digits[4] == '4' && digits[5] == '5' && digits[6] == '6' && digits[7] == '7'
        && digits[8] == '8' && digits[9] == '9' && digits[10] == 'A' && digits[11] == 'B'
        && digits[12] == 'C' && digits[13] == 'D' && digits[14] == 'E' && digits[15] == 'F');
    let high = b as int / 16;
    let low = b as int % 16;
    assert(0 <= high < 16 && 0 <= low < 16);
    assert(hex_digit(high) == digits[high]);
    assert(hex_digit(low) == digits[low]);
}

/// A text is written in a query string byte by byte, as the bytes of its
/// UTF-8 come.
pub proof fn law_text_is_written_byte_by_byte(text: Seq<char>, pieces: Seq<Seq<char>>)
    requires
        pieces.len() == encode_utf8(text).len(),
        forall|k: int|
            0 <= k < pieces.len() ==> #[trigger] pieces[k] == form_byte(encode_utf8(text)[k]),
    ensures
        form_encoded(text) == concat(pieces),
{
    lemma_bytes_written(encode_utf8(text), pieces);
}

proof fn lemma_bytes_written(bytes: Seq<u8>, pieces: Seq<Seq<char>>)
    requires
        pieces.len() == bytes.len(),
        forall|k: int| 0 <= k < pieces.len() ==> #[trigger] pieces[k] == form_byte(bytes[k]),
    ensures
        gather(bytes, |b: u8| form_byte(b)) == concat(pieces),
    decreases bytes.len(),
{
    if bytes.len() > 0 {
        assert forall|k: int| 0 <= k < pieces.len() - 1 implies #[trigger] pieces.drop_last()[k]
            == form_byte(bytes.drop_last()[k]) by {
            assert(pieces.drop_last()[k] == pieces[k]);
        }
        lemma_bytes_written(bytes.drop_last(), pieces.drop_last());
        assert(pieces[bytes.len() - 1] == pieces.last());
    }
}

} // verus!
