//! Characters and words: the text operations that the rest of the library
//! is stated over, each a verified loop against a mathematical definition.

use vstd::prelude::*;

verus! {

/// `String::push`: appends one character at the end of the string.
pub assume_specification[ String::push ](s: &mut String, ch: char)
    ensures
        final(s)@ == old(s)@.push(ch),
;

/// `String::pop`: removes the last character and returns it, or returns
/// `None` and changes nothing when the string is empty.
pub assume_specification[ String::pop ](s: &mut String) -> (last: Option<char>)
    ensures
        old(s)@.len() == 0 ==> last is None && final(s)@ == old(s)@,
        old(s)@.len() > 0 ==> last == Some(old(s)@.last()) && final(s)@ == old(s)@.drop_last(),
;

/// The characters with the Unicode property White_Space.
pub open spec fn white_space(c: char) -> bool {
    let n = c as u32;
    ||| 0x09 <= n <= 0x0d
    ||| n == 0x20
    ||| n == 0x85
    ||| n == 0xa0
    ||| n == 0x1680
    ||| 0x2000 <= n <= 0x200a
    ||| n == 0x2028
    ||| n == 0x2029
    ||| n == 0x202f
    ||| n == 0x205f
    ||| n == 0x3000
}

pub open spec fn all_white_space(s: Seq<char>) -> bool {
    forall|i: int| 0 <= i < s.len() ==> white_space(#[trigger] s[i])
}

/// The words of a text: its longest runs without white space, in order.
pub open spec fn words(s: Seq<char>) -> Seq<Seq<char>>
    decreases s.len(),
{
    if s.len() == 0 {
        Seq::empty()
    } else {
        let before = words(s.drop_last());
        let c = s.last();
        if white_space(c) {
            before
        } else if s.len() == 1 || white_space(s[s.len() - 2]) {
            before.push(seq![c])
        } else {
            before.drop_last().push(before.last().push(c))
        }
    }
}

/// The parts, with `separator` between each two that follow one another.
pub open spec fn join(parts: Seq<Seq<char>>, separator: Seq<char>) -> Seq<char>
    decreases parts.len(),
{
    if parts.len() == 0 {
        Seq::empty()
    } else if parts.len() == 1 {
        parts[0]
    } else {
        join(parts.drop_last(), separator) + separator + parts.last()
    }
}

/// The words of a text with one space between each two.
pub open spec fn normalized(s: Seq<char>) -> Seq<char> {
    join(words(s), seq![' '])
}

/// The text without the white space at its start.
pub open spec fn trimmed_start(s: Seq<char>) -> Seq<char>
    decreases s.len(),
{
    if s.len() > 0 && white_space(s[0]) {
        trimmed_start(s.drop_first())
    } else {
        s
    }
}

/// The text without the white space at its end.
pub open spec fn trimmed_end(s: Seq<char>) -> Seq<char>
    decreases s.len(),
{
    if s.len() > 0 && white_space(s.last()) {
        trimmed_end(s.drop_last())
    } else {
        s
    }
}

/// The text without the white space at either end.
pub open spec fn trimmed(s: Seq<char>) -> Seq<char> {
    trimmed_end(trimmed_start(s))
}

/// The character with an ASCII upper case letter turned into its lower case.
pub open spec fn ascii_lower_char(c: char) -> char {
    if 'A' <= c <= 'Z' {
        ((c as u32 + 32) as u32) as char
    } else {
        c
    }
}

/// The text with its ASCII upper case letters turned into lower case.
pub open spec fn ascii_lower(s: Seq<char>) -> Seq<char> {
    Seq::new(s.len(), |i: int| ascii_lower_char(s[i]))
}

/// The parts of a text between the separators; one more than there are of
/// those.
pub open spec fn split(s: Seq<char>, separator: char) -> Seq<Seq<char>>
    decreases s.len(),
{
    if s.len() == 0 {
        seq![Seq::empty()]
    } else {
        let before = split(s.drop_last(), separator);
        if s.last() == separator {
            before.push(Seq::empty())
        } else {
            before.drop_last().push(before.last().push(s.last()))
        }
    }
}

/// Where `c` first stands in the text: its length, if `c` is not in it.
pub open spec fn first_of(s: Seq<char>, c: char) -> int
    decreases s.len(),
{
    if s.len() == 0 || s[0] == c {
        0
    } else {
        1 + first_of(s.drop_first(), c)
    }
}

/// What stands before and after the first `separator`, if there is one.
pub open spec fn cut(s: Seq<char>, separator: char) -> Option<(Seq<char>, Seq<char>)> {
    let at = first_of(s, separator);
    if at < s.len() {
        Some((s.take(at), s.skip(at + 1)))
    } else {
        None
    }
}

pub open spec fn stands_at(s: Seq<char>, part: Seq<char>, at: int) -> bool {
    &&& 0 <= at
    &&& at + part.len() <= s.len()
    &&& s.subrange(at, at + part.len()) == part
}

/// Whether `part` stands somewhere in the text, in one piece.
pub open spec fn has_part(s: Seq<char>, part: Seq<char>) -> bool {
    exists|at: int| stands_at(s, part, at)
}

/// The text, or its first `n` characters where it is longer.
pub open spec fn first_chars(s: Seq<char>, n: int) -> Seq<char> {
    if s.len() <= n {
        s
    } else {
        s.take(n)
    }
}

pub open spec fn digit(n: nat) -> char
    recommends
        n < 10,
{
    ((0x30 + n) as u32) as char
}

/// The decimal digits of a number.
pub open spec fn decimal(n: nat) -> Seq<char>
    decreases n,
{
    if n < 10 {
        seq![digit(n)]
    } else {
        decimal(n / 10).push(digit(n % 10))
    }
}

/// Whether two texts are the same sequence of characters.
pub fn same_text(a: &str, b: &str) -> (same: bool)
    ensures
        same == (a@ == b@),
{
    let mut left = a.chars();
    let mut right = b.chars();
    let ghost mut n: int = 0;
    loop
        invariant
            0 <= n <= a@.len(),
            n <= b@.len(),
            vstd::std_specs::iter::IteratorSpec::remaining(&left) == a@.skip(n),
            vstd::std_specs::iter::IteratorSpec::remaining(&right) == b@.skip(n),
            a@.take(n) == b@.take(n),
            vstd::std_specs::iter::IteratorSpec::obeys_prophetic_iter_laws(&left),
            vstd::std_specs::iter::IteratorSpec::obeys_prophetic_iter_laws(&right),
        decreases a@.len() - n,
    {
        let x = left.next();
        let y = right.next();
        match (x, y) {
            (Some(c), Some(d)) => {
                assert(c == a@[n] && d == b@[n]);
                if c != d {
                    return false;
                }
                proof {
                    assert(a@.skip(n).drop_first() =~= a@.skip(n + 1));
                    assert(b@.skip(n).drop_first() =~= b@.skip(n + 1));
                    assert(a@.take(n + 1) =~= a@.take(n).push(c));
                    assert(b@.take(n + 1) =~= b@.take(n).push(c));
                    n = n + 1;
                }
            },
            (None, None) => {
                assert(a@.take(n) =~= a@);
                assert(b@.take(n) =~= b@);
                return true;
            },
            _ => {
                assert(a@.len() != b@.len());
                return false;
            },
        }
    }
}

/// The characters of a text, one after another.
pub fn chars_of(s: &str) -> (chars: Vec<char>)
    ensures
        chars@ == s@,
{
    let mut chars: Vec<char> = Vec::new();
    for c in it: s.chars()
        invariant
            chars@ == it.seq().take(it.index()),
            it.seq() == s@,
    {
        chars.push(c);
        assert(it.seq().take(it.index() + 1) =~= it.seq().take(it.index()).push(c));
    }
    assert(s@.take(s@.len() as int) =~= s@);
    chars
}

/// The text made of the characters from `from` up to, not including, `to`.
pub fn text_of(chars: &Vec<char>, from: usize, to: usize) -> (s: String)
    requires
        from <= to <= chars@.len(),
    ensures
        s@ == chars@.subrange(from as int, to as int),
{
    let mut s = String::new();
    for i in from..to
        invariant
            from <= to <= chars@.len(),
            s@ == chars@.subrange(from as int, i as int),
    {
        s.push(chars[i]);
        assert(chars@.subrange(from as int, i + 1) =~= chars@.subrange(from as int, i as int).push(
            chars@[i as int],
        ));
    }
    s
}

/// Whether a character has the Unicode property White_Space.
pub fn is_white_space(c: char) -> (yes: bool)
    ensures
        yes == white_space(c),
{
    let n: u32 = c as u32;
    (0x09 <= n && n <= 0x0d) || n == 0x20 || n == 0x85 || n == 0xa0 || n == 0x1680 || (0x2000 <= n
        && n <= 0x200a) || n == 0x2028 || n == 0x2029 || n == 0x202f || n == 0x205f || n == 0x3000
}

/// Whether a text holds nothing but white space.
pub fn is_blank(s: &str) -> (yes: bool)
    ensures
        yes == (trimmed(s@).len() == 0),
        yes == all_white_space(s@),
{
    proof {
        lemma_trimmed_empty(s@);
    }
    for c in it: s.chars()
        invariant
            it.seq() == s@,
            forall|k: int| 0 <= k < it.index() ==> white_space(#[trigger] s@[k]),
            (trimmed(s@).len() == 0) == all_white_space(s@),
    {
        if !is_white_space(c) {
            assert(!white_space(s@[it.index() as int]));
            return false;
        }
    }
    true
}

proof fn lemma_trimmed_start_empty(s: Seq<char>)
    ensures
        (trimmed_start(s).len() == 0) == all_white_space(s),
        trimmed_start(s).len() > 0 ==> !white_space(trimmed_start(s)[0]),
    decreases s.len(),
{
    if s.len() > 0 && white_space(s[0]) {
        lemma_trimmed_start_empty(s.drop_first());
        if all_white_space(s.drop_first()) {
            assert forall|i: int| 0 <= i < s.len() implies white_space(#[trigger] s[i]) by {
                if i > 0 {
                    assert(s[i] == s.drop_first()[i - 1]);
                }
            }
        }
        if all_white_space(s) {
            assert forall|i: int| 0 <= i < s.drop_first().len() implies white_space(
                #[trigger] s.drop_first()[i],
            ) by {
                assert(s.drop_first()[i] == s[i + 1]);
            }
        }
    }
}

proof fn lemma_trimmed_end_keeps_first(s: Seq<char>)
    requires
        s.len() > 0,
        !white_space(s[0]),
    ensures
        trimmed_end(s).len() > 0,
        trimmed_end(s)[0] == s[0],
    decreases s.len(),
{
    if white_space(s.last()) {
        lemma_trimmed_end_keeps_first(s.drop_last());
    }
}

pub proof fn lemma_trimmed_empty(s: Seq<char>)
    ensures
        (trimmed(s).len() == 0) == all_white_space(s),
{
    lemma_trimmed_start_empty(s);
    if trimmed_start(s).len() > 0 {
        lemma_trimmed_end_keeps_first(trimmed_start(s));
    }
}

proof fn lemma_trimmed_start_skip(s: Seq<char>, n: int)
    requires
        0 <= n <= s.len(),
        forall|k: int| 0 <= k < n ==> white_space(#[trigger] s[k]),
    ensures
        trimmed_start(s) == trimmed_start(s.skip(n)),
    decreases n,
{
    if n == 0 {
        assert(s.skip(0) =~= s);
    } else {
        assert forall|k: int| 0 <= k < n - 1 implies white_space(#[trigger] s.drop_first()[k]) by {
            assert(s.drop_first()[k] == s[k + 1]);
        }
        lemma_trimmed_start_skip(s.drop_first(), n - 1);
        assert(s.drop_first().skip(n - 1) =~= s.skip(n));
    }
}

proof fn lemma_trimmed_end_take(s: Seq<char>, n: int)
    requires
        0 <= n <= s.len(),
        forall|k: int| n <= k < s.len() ==> white_space(#[trigger] s[k]),
    ensures
        trimmed_end(s) == trimmed_end(s.take(n)),
    decreases s.len() - n,
{
    if n == s.len() {
        assert(s.take(n) =~= s);
    } else {
        lemma_trimmed_end_take(s.drop_last(), n);
        assert(s.drop_last().take(n) =~= s.take(n));
    }
}

/// The text without the white space at either end.
pub fn trim(s: &str) -> (t: String)
    ensures
        t@ == trimmed(s@),
{
    let chars = chars_of(s);
    let mut from: usize = 0;
    while from < chars.len() && is_white_space(chars[from])
        invariant
            chars@ == s@,
            from <= chars@.len(),
            forall|k: int| 0 <= k < from ==> white_space(#[trigger] s@[k]),
        decreases chars@.len() - from,
    {
        from = from + 1;
    }
    let mut to: usize = chars.len();
    while to > from && is_white_space(chars[to - 1])
        invariant
            chars@ == s@,
            from <= to <= chars@.len(),
            forall|k: int| to <= k < s@.len() ==> white_space(#[trigger] s@[k]),
        decreases to,
    {
        to = to - 1;
    }
    proof {
        let rest = s@.skip(from as int);
        lemma_trimmed_start_skip(s@, from as int);
        assert(trimmed_start(rest) == rest);
        assert forall|k: int| to - from <= k < rest.len() implies white_space(#[trigger] rest[k]) by {
            assert(rest[k] == s@[k + from]);
        }
        lemma_trimmed_end_take(rest, to - from);
        let kept = rest.take(to - from);
        assert(kept =~= s@.subrange(from as int, to as int));
        assert(trimmed_end(kept) == kept);
    }
    text_of(&chars, from, to)
}

/// The words of a text, in order.
pub fn split_words(s: &str) -> (parts: Vec<String>)
    ensures
        parts.deep_view() == words(s@),
{
    let mut parts: Vec<String> = Vec::new();
    let mut current = String::new();
    for c in it: s.chars()
        invariant
            it.seq() == s@,
            ({
                let done = s@.take(it.index());
                &&& words(done) == if current@.len() == 0 {
                    parts.deep_view()
                } else {
                    parts.deep_view().push(current@)
                }
                &&& (current@.len() == 0) == (done.len() == 0 || white_space(done.last()))
            }),
    {
        let ghost done = s@.take(it.index());
        let ghost now = s@.take(it.index() + 1);
        assert(now.drop_last() =~= done);
        assert(now.last() == c);
        if is_white_space(c) {
            if !current.as_str().is_empty() {
                let ghost held = parts.deep_view();
                let word = current;
                parts.push(word);
                assert(parts.deep_view() =~= held.push(word@));
                current = String::new();
            }
        } else {
            let ghost held = current@;
            current.push(c);
            proof {
                if held.len() == 0 {
                    assert(current@ =~= seq![c]);
                    assert(words(now) == parts.deep_view().push(current@));
                } else {
                    assert(now[now.len() - 2] == done.last());
                    assert(words(done).drop_last() =~= parts.deep_view());
                    assert(words(now) == parts.deep_view().push(current@));
                }
            }
        }
    }
    assert(s@.take(s@.len() as int) =~= s@);
    if !current.as_str().is_empty() {
        let ghost held = parts.deep_view();
        let word = current;
        parts.push(word);
        assert(parts.deep_view() =~= held.push(word@));
    }
    parts
}

proof fn lemma_join_push(parts: Seq<Seq<char>>, part: Seq<char>, separator: Seq<char>)
    ensures
        join(parts.push(part), separator) == if parts.len() == 0 {
            part
        } else {
            join(parts, separator) + separator + part
        },
{
    assert(parts.push(part).drop_last() =~= parts);
}

/// The parts, with `separator` between each two that follow one another.
pub fn join_texts(parts: &Vec<String>, separator: &str) -> (s: String)
    ensures
        s@ == join(parts.deep_view(), separator@),
{
    let mut s = String::new();
    for i in 0..parts.len()
        invariant
            s@ == join(parts.deep_view().take(i as int), separator@),
    {
        if i > 0 {
            s.append(separator);
        }
        s.append(parts[i].as_str());
        proof {
            let seen = parts.deep_view().take(i as int);
            lemma_join_push(seen, parts@[i as int]@, separator@);
            assert(parts.deep_view().take(i + 1) =~= seen.push(parts@[i as int]@));
            if i == 0 {
                assert(s@ =~= parts@[0]@);
            }
        }
    }
    assert(parts.deep_view().take(parts@.len() as int) =~= parts.deep_view());
    s
}

/// Collapses every run of white space into one space, and drops it at both
/// ends.
pub fn normalize_text(value: &str) -> (s: String)
    ensures
        s@ == normalized(value@),
{
    let parts = split_words(value);
    let s = join_texts(&parts, " ");
    proof {
        reveal_strlit(" ");
        assert(" "@ =~= seq![' ']);
    }
    s
}

/// The text with its ASCII upper case letters turned into lower case.
pub fn to_ascii_lower(s: &str) -> (t: String)
    ensures
        t@ == ascii_lower(s@),
{
    let mut t = String::new();
    for c in it: s.chars()
        invariant
            it.seq() == s@,
            t@ == ascii_lower(s@.take(it.index())),
    {
        let lower = lower_char(c);
        t.push(lower);
        assert(ascii_lower(s@.take(it.index() + 1)) =~= ascii_lower(s@.take(it.index())).push(
            lower,
        ));
    }
    assert(s@.take(s@.len() as int) =~= s@);
    t
}

fn lower_char(c: char) -> (lower: char)
    ensures
        lower == ascii_lower_char(c),
{
    if 'A' <= c && c <= 'Z' {
        let n: u8 = c as u8;
        (n + 32) as char
    } else {
        c
    }
}

/// Whether two texts differ at most in the case of ASCII letters.
pub fn same_ignoring_case(a: &str, b: &str) -> (same: bool)
    ensures
        same == (ascii_lower(a@) == ascii_lower(b@)),
{
    let left = to_ascii_lower(a);
    let right = to_ascii_lower(b);
    same_text(left.as_str(), right.as_str())
}

/// There is always a part, if only an empty one.
pub proof fn lemma_split_not_empty(s: Seq<char>, separator: char)
    ensures
        split(s, separator).len() > 0,
    decreases s.len(),
{
    if s.len() > 0 {
        lemma_split_not_empty(s.drop_last(), separator);
    }
}

/// The parts of a text between the separators.
pub fn split_on(s: &str, separator: char) -> (parts: Vec<String>)
    ensures
        parts.deep_view() == split(s@, separator),
        parts@.len() > 0,
{
    let mut parts: Vec<String> = Vec::new();
    let mut current = String::new();
    for c in it: s.chars()
        invariant
            it.seq() == s@,
            split(s@.take(it.index()), separator) == parts.deep_view().push(current@),
    {
        let ghost done = s@.take(it.index());
        let ghost now = s@.take(it.index() + 1);
        assert(now.drop_last() =~= done);
        let ghost held = parts.deep_view();
        let ghost seen = current@;
        assert(held.push(seen).drop_last() =~= held);
        if c == separator {
            parts.push(current);
            assert(parts.deep_view() =~= held.push(seen));
            current = String::new();
        } else {
            current.push(c);
        }
    }
    assert(s@.take(s@.len() as int) =~= s@);
    let ghost held = parts.deep_view();
    let ghost seen = current@;
    parts.push(current);
    assert(parts.deep_view() =~= held.push(seen));
    parts
}

proof fn lemma_first_of(s: Seq<char>, c: char)
    ensures
        0 <= first_of(s, c) <= s.len(),
        forall|k: int| 0 <= k < first_of(s, c) ==> #[trigger] s[k] != c,
        first_of(s, c) < s.len() ==> s[first_of(s, c)] == c,
    decreases s.len(),
{
    if s.len() > 0 && s[0] != c {
        lemma_first_of(s.drop_first(), c);
        assert forall|k: int| 0 <= k < first_of(s, c) implies #[trigger] s[k] != c by {
            if k > 0 {
                assert(s[k] == s.drop_first()[k - 1]);
            }
        }
    }
}

proof fn lemma_first_of_is(s: Seq<char>, c: char, at: int)
    requires
        0 <= at <= s.len(),
        forall|k: int| 0 <= k < at ==> #[trigger] s[k] != c,
        at < s.len() ==> s[at] == c,
    ensures
        first_of(s, c) == at,
{
    lemma_first_of(s, c);
    if first_of(s, c) < at {
        assert(s[first_of(s, c)] != c);
    }
    if at < first_of(s, c) {
        assert(s[at] != c);
    }
}

/// What stands before and after the first `separator`, if there is one.
pub fn split_once(s: &str, separator: char) -> (halves: Option<(String, String)>)
    ensures
        halves.deep_view() == cut(s@, separator),
{
    let chars = chars_of(s);
    for i in 0..chars.len()
        invariant
            chars@ == s@,
            forall|k: int| 0 <= k < i ==> #[trigger] s@[k] != separator,
    {
        if chars[i] == separator {
            proof {
                lemma_first_of_is(s@, separator, i as int);
                assert(s@.subrange(0, i as int) =~= s@.take(i as int));
                assert(s@.subrange(i + 1, s@.len() as int) =~= s@.skip(i + 1));
            }
            let before = text_of(&chars, 0, i);
            let after = text_of(&chars, i + 1, chars.len());
            return Some((before, after));
        }
    }
    proof {
        lemma_first_of_is(s@, separator, s@.len() as int);
    }
    None
}

/// Whether a character stands in the text.
pub fn has_char(s: &str, c: char) -> (yes: bool)
    ensures
        yes == s@.contains(c),
{
    for d in it: s.chars()
        invariant
            it.seq() == s@,
            forall|k: int| 0 <= k < it.index() ==> #[trigger] s@[k] != c,
    {
        if d == c {
            assert(s@[it.index()] == c);
            return true;
        }
    }
    false
}

fn part_stands_at(s: &Vec<char>, part: &Vec<char>, at: usize) -> (yes: bool)
    ensures
        yes == stands_at(s@, part@, at as int),
{
    if at > s.len() || part.len() > s.len() - at {
        return false;
    }
    for k in 0..part.len()
        invariant
            at + part.len() <= s.len(),
            forall|j: int| 0 <= j < k ==> s@[at + j] == #[trigger] part@[j],
    {
        if s[at + k] != part[k] {
            assert(s@.subrange(at as int, at + part@.len())[k as int] != part@[k as int]);
            return false;
        }
    }
    assert(s@.subrange(at as int, at + part@.len()) =~= part@);
    true
}

/// Whether the text begins with `prefix`.
pub fn starts_with(s: &str, prefix: &str) -> (yes: bool)
    ensures
        yes == stands_at(s@, prefix@, 0),
{
    part_stands_at(&chars_of(s), &chars_of(prefix), 0)
}

/// Whether the text ends with `suffix`.
pub fn ends_with(s: &str, suffix: &str) -> (yes: bool)
    ensures
        yes == stands_at(s@, suffix@, s@.len() - suffix@.len()),
{
    let chars = chars_of(s);
    let part = chars_of(suffix);
    if part.len() > chars.len() {
        return false;
    }
    part_stands_at(&chars, &part, chars.len() - part.len())
}

/// Whether `part` stands somewhere in the text.
pub fn contains_text(s: &str, part: &str) -> (yes: bool)
    ensures
        yes == has_part(s@, part@),
{
    let chars = chars_of(s);
    let wanted = chars_of(part);
    if wanted.len() > chars.len() {
        return false;
    }
    let last: usize = chars.len() - wanted.len();
    let mut at: usize = 0;
    while at <= last
        invariant
            chars@ == s@,
            wanted@ == part@,
            last == s@.len() - part@.len(),
            at <= last + 1,
            forall|k: int| 0 <= k < at ==> !#[trigger] stands_at(s@, part@, k),
        decreases last + 1 - at,
    {
        if part_stands_at(&chars, &wanted, at) {
            return true;
        }
        if at == last {
            return false;
        }
        at = at + 1;
    }
    false
}

/// The text, or its first `n` characters where it is longer.
pub fn take_chars(s: &str, n: usize) -> (t: String)
    ensures
        t@ == first_chars(s@, n as int),
{
    let chars = chars_of(s);
    let to: usize = if chars.len() <= n { chars.len() } else { n };
    assert(s@.subrange(0, to as int) =~= first_chars(s@, n as int));
    text_of(&chars, 0, to)
}

/// The decimal digits of a number.
pub fn decimal_text(n: u128) -> (s: String)
    ensures
        s@ == decimal(n as nat),
    decreases n,
{
    let mut s = if n < 10 { String::new() } else { decimal_text(n / 10) };
    let d: u8 = (n % 10) as u8;
    s.push((0x30 + d) as char);
    assert(n < 10 ==> s@ =~= decimal(n as nat));
    s
}

/// Whether a character is an ASCII digit.
pub open spec fn is_digit(c: char) -> bool {
    '0' <= c <= '9'
}

/// The number that digits write down.
pub open spec fn digits_value(s: Seq<char>) -> int
    decreases s.len(),
{
    if s.len() == 0 {
        0
    } else {
        10 * digits_value(s.drop_last()) + (s.last() as u32 - 0x30)
    }
}

pub open spec fn all_digits(s: Seq<char>) -> bool {
    forall|k: int| 0 <= k < s.len() ==> is_digit(#[trigger] s[k])
}

/// The digits of a number that is written with or without a plus sign.
pub open spec fn unsigned_digits(s: Seq<char>) -> Seq<char> {
    if s.len() > 1 && s[0] == '+' {
        s.drop_first()
    } else {
        s
    }
}

/// The size that a text writes down, where it writes one that a machine
/// size can hold.
pub open spec fn parsed_size(s: Seq<char>) -> Option<int> {
    let digits = unsigned_digits(s);
    if digits.len() > 0 && all_digits(digits) && digits_value(digits) <= usize::MAX {
        Some(digits_value(digits))
    } else {
        None
    }
}

pub proof fn lemma_digits_grow(s: Seq<char>, n: int)
    requires
        0 <= n <= s.len(),
        all_digits(s),
    ensures
        0 <= digits_value(s.take(n)) <= digits_value(s),
    decreases s.len(),
{
    if n < s.len() {
        assert(s.drop_last().take(n) =~= s.take(n));
        assert forall|k: int| 0 <= k < s.drop_last().len() implies is_digit(
            #[trigger] s.drop_last()[k],
        ) by {
            assert(s.drop_last()[k] == s[k]);
        }
        lemma_digits_grow(s.drop_last(), n);
        assert(is_digit(s[s.len() - 1]));
    } else {
        assert(s.take(n) =~= s);
        if s.len() > 0 {
            assert forall|k: int| 0 <= k < s.drop_last().len() implies is_digit(
                #[trigger] s.drop_last()[k],
            ) by {
                assert(s.drop_last()[k] == s[k]);
            }
            lemma_digits_grow(s.drop_last(), s.len() - 1);
            assert(s.drop_last().take(s.len() - 1) =~= s.drop_last());
            assert(is_digit(s[s.len() - 1]));
        }
    }
}

/// The size that a text writes down, where it writes one that a machine
/// size can hold.
pub fn parse_size(s: &str) -> (size: Option<usize>)
    ensures
        size is Some == parsed_size(s@) is Some,
        size is Some ==> size->0 == parsed_size(s@)->0,
{
    let chars = chars_of(s);
    let from: usize = if chars.len() > 1 && chars[0] == '+' { 1 } else { 0 };
    let ghost digits = unsigned_digits(s@);
    assert(digits =~= s@.skip(from as int));
    if chars.len() == from {
        return None;
    }
    let mut value: usize = 0;
    let mut i: usize = from;
    assert(digits.take(0) =~= Seq::empty());
    while i < chars.len()
        invariant
            chars@ == s@,
            from <= i <= chars.len(),
            digits == s@.skip(from as int),
            digits == unsigned_digits(s@),
            value == digits_value(digits.take(i - from)),
            all_digits(digits.take(i - from)),
        decreases chars@.len() - i,
    {
        let c = chars[i];
        let ghost now = digits.take(i - from + 1);
        proof {
            assert(digits[i - from] == c);
            assert(now.drop_last() =~= digits.take(i - from));
            assert(now.last() == c);
        }
        if !('0' <= c && c <= '9') {
            assert(!is_digit(digits[i - from]));
            return None;
        }
        let d: usize = (c as u32 - 0x30) as usize;
        let wide: u128 = 10 * (value as u128) + d as u128;
        if wide > usize::MAX as u128 {
            proof {
                if all_digits(digits) {
                    lemma_digits_grow(digits, i - from + 1);
                }
            }
            return None;
        }
        value = wide as usize;
        assert(all_digits(now)) by {
            assert forall|k: int| 0 <= k < now.len() implies is_digit(#[trigger] now[k]) by {
                if k < now.len() - 1 {
                    assert(now[k] == digits.take(i - from)[k]);
                }
            }
        }
        i = i + 1;
    }
    assert(digits.take(digits.len() as int) =~= digits);
    Some(value)
}

/// Where `part` first stands in the text at or after `from`.
pub open spec fn part_from(s: Seq<char>, part: Seq<char>, from: int) -> Option<int>
    decreases s.len() - from + 1,
{
    if from > s.len() {
        None
    } else if stands_at(s, part, from) {
        Some(from)
    } else {
        part_from(s, part, from + 1)
    }
}

/// What stands before and behind the first `part` in a text.
pub open spec fn cut_at(s: Seq<char>, part: Seq<char>) -> Option<(Seq<char>, Seq<char>)> {
    match part_from(s, part, 0) {
        Some(at) => Some(
            (s.subrange(0, at), s.subrange(at + part.len(), s.len() as int)),
        ),
        None => None,
    }
}

proof fn lemma_part_from(s: Seq<char>, part: Seq<char>, from: int)
    ensures
        part_from(s, part, from) matches Some(at) ==> from <= at && stands_at(s, part, at),
        s.len() - part.len() < from ==> part_from(s, part, from) is None,
    decreases s.len() - from + 1,
{
    if from <= s.len() && !stands_at(s, part, from) {
        lemma_part_from(s, part, from + 1);
    }
}

/// What stands before and behind the first `part` in a text.
pub fn split_at_text(s: &str, part: &str) -> (halves: Option<(String, String)>)
    ensures
        halves.deep_view() == cut_at(s@, part@),
{
    let chars = chars_of(s);
    let wanted = chars_of(part);
    if wanted.len() > chars.len() {
        proof {
            lemma_part_from(s@, part@, 0);
        }
        return None;
    }
    let last: usize = chars.len() - wanted.len();
    let mut at: usize = 0;
    loop
        invariant
            chars@ == s@,
            wanted@ == part@,
            last == s@.len() - part@.len(),
            at <= last,
            last + wanted.len() == chars.len(),
            part_from(s@, part@, 0) == part_from(s@, part@, at as int),
        decreases last - at,
    {
        if part_stands_at(&chars, &wanted, at) {
            return Some(
                (text_of(&chars, 0, at), text_of(&chars, at + wanted.len(), chars.len())),
            );
        }
        proof {
            lemma_part_from(s@, part@, at + 1);
        }
        if at == last {
            return None;
        }
        at = at + 1;
    }
}

/// The text that is there, or an empty one.
pub open spec fn text_or_empty(text: Option<Seq<char>>) -> Seq<char> {
    match text {
        Some(text) => text,
        None => Seq::empty(),
    }
}

/// The text that is there, or an empty one.
pub fn or_empty<'a>(text: &'a Option<String>) -> (s: &'a str)
    ensures
        s@ == text_or_empty(text.deep_view()),
{
    match text {
        Some(text) => text.as_str(),
        None => {
            proof {
                reveal_strlit("");
            }
            assert(""@ =~= Seq::empty());
            ""
        },
    }
}

/// A word: a text that is not empty and holds no white space.
pub open spec fn is_word(w: Seq<char>) -> bool {
    &&& w.len() > 0
    &&& forall|i: int| 0 <= i < w.len() ==> !white_space(#[trigger] w[i])
}

pub proof fn lemma_words_are_words(s: Seq<char>)
    ensures
        forall|k: int| 0 <= k < words(s).len() ==> is_word(#[trigger] words(s)[k]),
        s.len() > 0 && !white_space(s.last()) ==> words(s).len() > 0,
    decreases s.len(),
{
    if s.len() > 0 {
        lemma_words_are_words(s.drop_last());
        let before = words(s.drop_last());
        if !white_space(s.last()) && s.len() > 1 && !white_space(s[s.len() - 2]) {
            assert(s.drop_last().last() == s[s.len() - 2]);
            assert(is_word(before.last()));
            assert(is_word(before.last().push(s.last())));
        }
    }
}

proof fn lemma_words_run(a: Seq<char>, w: Seq<char>)
    requires
        is_word(w),
        a.len() == 0 || white_space(a.last()),
    ensures
        words(a + w) == words(a).push(w),
    decreases w.len(),
{
    let s = a + w;
    assert(s.drop_last() =~= a + w.drop_last());
    assert(s.last() == w.last());
    if w.len() == 1 {
        assert(a + w.drop_last() =~= a);
        assert(w =~= seq![w.last()]);
        if a.len() > 0 {
            assert(s[s.len() - 2] == a.last());
        }
    } else {
        lemma_words_run(a, w.drop_last());
        assert(s[s.len() - 2] == w[w.len() - 2]);
        assert(w.drop_last().push(w.last()) =~= w);
        assert(words(a).push(w.drop_last()).drop_last() =~= words(a));
    }
}

proof fn lemma_words_of_join(parts: Seq<Seq<char>>)
    requires
        forall|k: int| 0 <= k < parts.len() ==> is_word(#[trigger] parts[k]),
    ensures
        words(join(parts, seq![' '])) == parts,
    decreases parts.len(),
{
    if parts.len() == 0 {
        assert(words(join(parts, seq![' '])) =~= parts);
    } else if parts.len() == 1 {
        lemma_words_run(Seq::empty(), parts[0]);
        assert(Seq::<char>::empty() + parts[0] =~= parts[0]);
        assert(words(Seq::<char>::empty()) =~= Seq::empty());
        assert(words(parts[0]) =~= parts);
    } else {
        let head = join(parts.drop_last(), seq![' ']);
        lemma_words_of_join(parts.drop_last());
        let spaced = head + seq![' '];
        assert(spaced.drop_last() =~= head);
        assert(words(spaced) == words(head));
        lemma_words_run(spaced, parts.last());
        assert(parts.drop_last().push(parts.last()) =~= parts);
    }
}

/// Normalizing keeps the words of a text: nothing but white space changes.
pub proof fn law_normalizing_keeps_the_words(s: Seq<char>)
    ensures
        words(normalized(s)) == words(s),
{
    lemma_words_are_words(s);
    lemma_words_of_join(words(s));
}

/// Normalizing a normalized text changes nothing.
pub proof fn law_normalizing_twice(s: Seq<char>)
    ensures
        normalized(normalized(s)) == normalized(s),
{
    law_normalizing_keeps_the_words(s);
}

/// White space keeps words apart: the words of a text with a white space in
/// it are those before it and those behind it.
pub proof fn law_white_space_parts_words(a: Seq<char>, c: char, b: Seq<char>)
    requires
        white_space(c),
    ensures
        words(a + seq![c] + b) == words(a) + words(b),
    decreases b.len(),
{
    let s = a + seq![c] + b;
    if b.len() == 0 {
        assert(s.drop_last() =~= a);
        assert(words(a) + words(b) =~= words(a));
    } else {
        let d = b.drop_last();
        law_white_space_parts_words(a, c, d);
        assert(s.drop_last() =~= a + seq![c] + d);
        if b.len() > 1 {
            assert(s[s.len() - 2] == b[b.len() - 2]);
            if !white_space(b.last()) && !white_space(b[b.len() - 2]) {
                lemma_words_are_words(d);
                assert((words(a) + words(d)).drop_last() =~= words(a) + words(d).drop_last());
            }
        } else {
            assert(s[s.len() - 2] == c);
            assert(words(d) =~= Seq::empty());
        }
        assert(words(s) =~= words(a) + words(b));
    }
}

/// A text without white space is one word, and white space alone is none.
pub proof fn law_what_words_are(s: Seq<char>)
    ensures
        is_word(s) ==> words(s) == seq![s],
        all_white_space(s) ==> words(s).len() == 0,
        forall|k: int| 0 <= k < words(s).len() ==> is_word(#[trigger] words(s)[k]),
    decreases s.len(),
{
    lemma_words_are_words(s);
    if is_word(s) {
        lemma_words_run(Seq::empty(), s);
        assert(Seq::<char>::empty() + s =~= s);
        assert(words(Seq::<char>::empty()) =~= Seq::empty());
    }
    if all_white_space(s) && s.len() > 0 {
        assert forall|k: int| 0 <= k < s.drop_last().len() implies white_space(
            #[trigger] s.drop_last()[k],
        ) by {
            assert(s[k] == s.drop_last()[k]);
        }
        law_what_words_are(s.drop_last());
        assert(white_space(s[s.len() - 1]));
    }
}

/// What is white space: the tab, the line breaks, the blank and the other
/// blanks of Unicode, and nothing else; in particular no character that is
/// seen, and not the zero-width space.
pub proof fn law_what_white_space_is(c: char)
    ensures
        white_space(c) <==> ('\u{9}' <= c <= '\u{d}' || c == ' ' || c == '\u{85}' || c == '\u{a0}'
            || c == '\u{1680}' || '\u{2000}' <= c <= '\u{200a}' || c == '\u{2028}' || c
            == '\u{2029}' || c == '\u{202f}' || c == '\u{205f}' || c == '\u{3000}'),
        '!' <= c <= '~' || c == '\u{200b}' ==> !white_space(c),
{
}

proof fn lemma_join_is_tidy(parts: Seq<Seq<char>>)
    requires
        forall|k: int| 0 <= k < parts.len() ==> is_word(#[trigger] parts[k]),
    ensures
        ({
            let s = join(parts, seq![' ']);
            &&& s.len() == 0 <==> parts.len() == 0
            &&& s.len() > 0 ==> !white_space(s[0]) && !white_space(s.last())
            &&& forall|k: int|
                0 <= k < s.len() && white_space(#[trigger] s[k]) ==> s[k] == ' ' && k + 1 < s.len()
                    && !white_space(s[k + 1])
        }),
    decreases parts.len(),
{
    let s = join(parts, seq![' ']);
    if parts.len() == 1 {
        assert(is_word(parts[0]));
        assert(!white_space(s[0]));
        assert(!white_space(s[s.len() - 1]));
        assert forall|k: int| 0 <= k < s.len() implies !white_space(#[trigger] s[k]) by {}
    } else if parts.len() > 1 {
        let head = join(parts.drop_last(), seq![' ']);
        let last = parts.last();
        lemma_join_is_tidy(parts.drop_last());
        assert(is_word(parts[parts.len() - 1]));
        assert(s[0] == head[0]);
        assert(s.last() == last[last.len() - 1]);
        assert forall|k: int| 0 <= k < s.len() && white_space(#[trigger] s[k]) implies s[k] == ' '
            && k + 1 < s.len() && !white_space(s[k + 1]) by {
            if k < head.len() {
                assert(s[k] == head[k]);
                assert(s[k + 1] == head[k + 1]);
            } else if k == head.len() {
                assert(s[k + 1] == last[0]);
            } else {
                assert(s[k] == last[k - head.len() - 1]);
            }
        }
    }
}

/// A normalized text has no white space at its ends, and in between only
/// single spaces.
pub proof fn law_normalized_is_tidy(s: Seq<char>)
    ensures
        ({
            let t = normalized(s);
            &&& t.len() > 0 ==> !white_space(t[0]) && !white_space(t.last())
            &&& forall|k: int|
                0 <= k < t.len() && white_space(#[trigger] t[k]) ==> t[k] == ' ' && k + 1 < t.len()
                    && !white_space(t[k + 1])
        }),
{
    lemma_words_are_words(s);
    lemma_join_is_tidy(words(s));
}

/// To ignore case is to take each of the letters `A` to `Z` for the small
/// one, and every other character as it is.
pub proof fn law_case_is_that_of_ascii_letters(s: Seq<char>, k: int)
    requires
        0 <= k < s.len(),
    ensures
        ascii_lower(s).len() == s.len(),
        'A' <= s[k] <= 'Z' ==> ascii_lower(s)[k] as int == s[k] as int + 32,
        !('A' <= s[k] <= 'Z') ==> ascii_lower(s)[k] == s[k],
{
}

/// A text without words is empty when it is normalized, and no other is.
pub proof fn lemma_normalized_empty(s: Seq<char>)
    ensures
        normalized(s).len() == 0 <==> words(s).len() == 0,
{
    lemma_words_are_words(s);
    lemma_join_is_tidy(words(s));
}

/// Trimming takes off the white space at both ends, and nothing else.
pub proof fn law_trimming_takes_off_white_space(a: Seq<char>, s: Seq<char>, b: Seq<char>)
    requires
        all_white_space(a),
        all_white_space(b),
        s.len() > 0 ==> !white_space(s[0]) && !white_space(s.last()),
    ensures
        trimmed(a + s + b) == s,
{
    let t = a + s + b;
    if s.len() == 0 {
        assert forall|k: int| 0 <= k < t.len() implies white_space(#[trigger] t[k]) by {
            if k < a.len() {
                assert(t[k] == a[k]);
            } else {
                assert(t[k] == b[k - a.len()]);
            }
        }
        lemma_trimmed_empty(t);
        assert(trimmed(t) =~= s);
    } else {
        assert forall|k: int| 0 <= k < a.len() implies white_space(#[trigger] t[k]) by {
            assert(t[k] == a[k]);
        }
        lemma_trimmed_start_skip(t, a.len() as int);
        let u = t.skip(a.len() as int);
        assert(u =~= s + b);
        assert(u[0] == s[0]);
        assert(trimmed_start(u) == u);
        assert forall|k: int| s.len() <= k < u.len() implies white_space(#[trigger] u[k]) by {
            assert(u[k] == b[k - s.len()]);
        }
        lemma_trimmed_end_take(u, s.len() as int);
        assert(u.take(s.len() as int) =~= s);
    }
}

/// Every text is its trimmed self between white space.
pub proof fn lemma_trimmed_between(s: Seq<char>) -> (ends: (Seq<char>, Seq<char>))
    ensures
        all_white_space(ends.0),
        all_white_space(ends.1),
        s == ends.0 + trimmed(s) + ends.1,
        trimmed(s).len() > 0 ==> !white_space(trimmed(s)[0]) && !white_space(trimmed(s).last()),
{
    let a = lemma_trimmed_start_between(s);
    let b = lemma_trimmed_end_between(trimmed_start(s));
    lemma_trimmed_start_empty(s);
    if trimmed_start(s).len() > 0 {
        lemma_trimmed_end_keeps_first(trimmed_start(s));
    }
    assert(s =~= a + trimmed(s) + b);
    (a, b)
}

proof fn lemma_trimmed_start_between(s: Seq<char>) -> (a: Seq<char>)
    ensures
        all_white_space(a),
        s == a + trimmed_start(s),
    decreases s.len(),
{
    if s.len() > 0 && white_space(s[0]) {
        let a = lemma_trimmed_start_between(s.drop_first());
        let b = seq![s[0]] + a;
        assert forall|k: int| 0 <= k < b.len() implies white_space(#[trigger] b[k]) by {
            if k > 0 {
                assert(b[k] == a[k - 1]);
            }
        }
        assert(s =~= seq![s[0]] + s.drop_first());
        assert(s =~= b + trimmed_start(s));
        b
    } else {
        assert(s =~= Seq::<char>::empty() + trimmed_start(s));
        Seq::empty()
    }
}

proof fn lemma_trimmed_end_between(s: Seq<char>) -> (b: Seq<char>)
    ensures
        all_white_space(b),
        s == trimmed_end(s) + b,
        trimmed_end(s).len() > 0 ==> !white_space(trimmed_end(s).last()),
    decreases s.len(),
{
    if s.len() > 0 && white_space(s.last()) {
        let a = lemma_trimmed_end_between(s.drop_last());
        let b = a.push(s.last());
        assert(s =~= s.drop_last().push(s.last()));
        assert(s =~= trimmed_end(s) + b);
        b
    } else {
        assert(s =~= trimmed_end(s) + Seq::<char>::empty());
        Seq::empty()
    }
}

/// A number is written in decimal digits that stand for it, without a zero
/// in front.
pub proof fn law_decimal_stands_for_its_number(n: nat)
    ensures
        digits_value(decimal(n)) == n,
        all_digits(decimal(n)),
        decimal(n).len() > 0,
        n > 0 ==> decimal(n)[0] != '0',
    decreases n,
{
    if n < 10 {
        assert(decimal(n).drop_last() =~= Seq::empty());
        assert(digits_value(Seq::<char>::empty()) == 0);
    } else {
        let head = decimal(n / 10);
        law_decimal_stands_for_its_number(n / 10);
        assert(decimal(n).drop_last() =~= head);
        assert(decimal(n)[0] == head[0]);
        assert forall|k: int| 0 <= k < decimal(n).len() implies is_digit(
            #[trigger] decimal(n)[k],
        ) by {
            if k < head.len() {
                assert(decimal(n)[k] == head[k]);
            }
        }
    }
}

/// What a text writes down as a size is what its digits stand for, with or
/// without a plus sign in front; so what is written in decimal is read back.
pub proof fn law_written_sizes_are_read_back(n: nat)
    requires
        n <= usize::MAX,
    ensures
        parsed_size(decimal(n)) == Some(n as int),
        parsed_size(seq!['+'] + decimal(n)) == Some(n as int),
{
    law_decimal_stands_for_its_number(n);
    assert(is_digit(decimal(n)[0]));
    let signed = seq!['+'] + decimal(n);
    assert(signed.drop_first() =~= decimal(n));
}

/// Anything but digits writes no size down.
pub proof fn law_other_texts_are_no_sizes(s: Seq<char>, k: int)
    requires
        s.len() == 0 || s == seq!['+'] || (0 <= k < s.len() && !is_digit(s[k]) && (k > 0 || s[0]
            != '+')),
    ensures
        parsed_size(s) is None,
{
    if s.len() > 1 && s[0] == '+' {
        assert(s.drop_first()[k - 1] == s[k]);
    }
}

/// A text has no words if and only if it is white space alone.
pub proof fn lemma_no_words(s: Seq<char>)
    ensures
        words(s).len() == 0 <==> all_white_space(s),
    decreases s.len(),
{
    law_what_words_are(s);
    if words(s).len() == 0 && s.len() > 0 {
        lemma_words_are_words(s);
        lemma_no_words(s.drop_last());
        assert(white_space(s.last()));
        assert forall|k: int| 0 <= k < s.len() implies white_space(#[trigger] s[k]) by {
            if k < s.len() - 1 {
                assert(s.drop_last()[k] == s[k]);
            }
        }
    }
}

/// Splitting goes by the separators: what stands on either side of one is
/// split by itself, and a text without any is one part.
pub proof fn law_splitting_goes_by_separators(a: Seq<char>, c: char, b: Seq<char>)
    ensures
        split(a + seq![c] + b, c) == split(a, c) + split(b, c),
        !a.contains(c) ==> split(a, c) == seq![a],
    decreases a.len() + b.len(),
{
    let s = a + seq![c] + b;
    if b.len() == 0 {
        assert(s.drop_last() =~= a);
        assert(split(a, c) + split(b, c) =~= split(a, c).push(Seq::empty()));
    } else {
        law_splitting_goes_by_separators(a, c, b.drop_last());
        assert(s.drop_last() =~= a + seq![c] + b.drop_last());
        let before = split(b.drop_last(), c);
        lemma_split_not_empty(b.drop_last(), c);
        assert((split(a, c) + before).drop_last() =~= split(a, c) + before.drop_last());
        assert(split(s, c) =~= split(a, c) + split(b, c));
    }
    if !a.contains(c) {
        if a.len() > 0 {
            let head = a.drop_last();
            if head.contains(c) {
                let k = choose|k: int| 0 <= k < head.len() && head[k] == c;
                assert(a[k] == c);
            }
            law_splitting_goes_by_separators(head, c, Seq::empty());
            assert(a[a.len() - 1] != c);
            assert(head.push(a.last()) =~= a);
            assert(split(a, c) =~= seq![a]);
        } else {
            assert(a =~= Seq::empty());
        }
    }
}

/// A text is cut at the first separator; one without any is not cut.
pub proof fn law_cutting_goes_by_the_first(a: Seq<char>, c: char, b: Seq<char>)
    requires
        !a.contains(c),
    ensures
        cut(a + seq![c] + b, c) == Some((a, b)),
        cut(a, c) is None,
{
    let s = a + seq![c] + b;
    assert forall|k: int| 0 <= k < a.len() implies a[k] != c by {
        assert(a.contains(a[k]));
    }
    lemma_first_of_is(s, c, a.len() as int);
    lemma_first_of_is(a, c, a.len() as int);
    assert(s.take(a.len() as int) =~= a);
    assert(s.skip(a.len() as int + 1) =~= b);
}

proof fn lemma_part_from_is(s: Seq<char>, part: Seq<char>, from: int, at: int)
    requires
        0 <= from <= at,
        stands_at(s, part, at),
        forall|k: int| from <= k < at ==> !#[trigger] stands_at(s, part, k),
    ensures
        part_from(s, part, from) == Some(at),
    decreases at - from,
{
    if from < at {
        assert(!stands_at(s, part, from));
        lemma_part_from_is(s, part, from + 1, at);
    }
}

/// A text is cut at a part where that part first stands.
pub proof fn law_cutting_goes_by_the_first_part(a: Seq<char>, part: Seq<char>, b: Seq<char>)
    requires
        forall|k: int| 0 <= k < a.len() ==> !#[trigger] stands_at(a + part + b, part, k),
    ensures
        cut_at(a + part + b, part) == Some((a, b)),
{
    let s = a + part + b;
    let n = a.len() as int;
    assert(s.subrange(n, n + part.len()) =~= part);
    lemma_part_from_is(s, part, 0, n);
    assert(s.subrange(0, n) =~= a);
    assert(s.subrange(n + part.len(), s.len() as int) =~= b);
}

/// A text that a part stands nowhere in is not cut.
pub proof fn law_no_cut_without_the_part(s: Seq<char>, part: Seq<char>)
    requires
        !has_part(s, part),
    ensures
        cut_at(s, part) is None,
{
    lemma_part_from(s, part, 0);
    if let Some(at) = part_from(s, part, 0) {
        assert(stands_at(s, part, at));
    }
}

} // verus!
