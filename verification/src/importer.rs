use vstd::prelude::*;
use crate::model::{Bible, BibleView, Book, BookView, Chapter, ChapterView, Edition, Verse,
    VerseView};
use crate::registry::BookName;
use crate::codec::{book_views, chapter_views, verse_views};

verus! {

/// The markup source violates the structure the importer requires: it is
/// not well-formed markup, a required numeric attribute is missing or not a
/// number, or a book carries an index outside 1 through 66. The whole
/// import fails; no partial corpus is ever produced.
#[derive(Debug, Clone, Copy, PartialEq, Eq, Structural)]
pub struct MalformedSource;

/// Markup whitespace: space, tab, carriage return, line feed.
pub open spec fn is_ws(c: char) -> bool {
    c == ' ' || c == '\t' || c == '\r' || c == '\n'
}

/// A character allowed in an element or attribute name: ASCII letters,
/// digits, underscore, hyphen, colon and dot.
pub open spec fn is_name_char(c: char) -> bool {
    let u = c as u32;
    (97 <= u <= 122) || (65 <= u <= 90) || (48 <= u <= 57) || u == 95 || u == 45 || u == 58 || u
        == 46
}

pub open spec fn is_digit(c: char) -> bool {
    48 <= c as u32 <= 57
}

fn is_ws_char(c: char) -> (r: bool)
    ensures
        r == is_ws(c),
{
    c == ' ' || c == '\t' || c == '\r' || c == '\n'
}

fn is_name_char_exec(c: char) -> (r: bool)
    ensures
        r == is_name_char(c),
{
    let u = c as u32;
    (97 <= u && u <= 122) || (65 <= u && u <= 90) || (48 <= u && u <= 57) || u == 95 || u == 45
        || u == 58 || u == 46
}

/// The first index at or after `i` holding a non-whitespace character, or
/// the end of the text.
pub open spec fn spec_skip_ws(s: Seq<char>, i: int) -> int
    recommends
        0 <= i <= s.len(),
    decreases s.len() - i,
{
    if i < 0 || i >= s.len() {
        i
    } else if is_ws(s[i]) {
        spec_skip_ws(s, i + 1)
    } else {
        i
    }
}

pub proof fn lemma_skip_ws_bounds(s: Seq<char>, i: int)
    requires
        0 <= i <= s.len(),
    ensures
        i <= spec_skip_ws(s, i) <= s.len(),
    decreases s.len() - i,
{
    if i < s.len() && is_ws(s[i]) {
        lemma_skip_ws_bounds(s, i + 1);
    }
}

fn skip_ws(s: &str, i: usize, n: usize) -> (r: usize)
    requires
        n == s@.len(),
        i <= n,
    ensures
        r == spec_skip_ws(s@, i as int),
        i <= r <= n,
{
    let mut j = i;
    while j < n && is_ws_char(s.get_char(j))
        invariant
            n == s@.len(),
            i <= j <= n,
            spec_skip_ws(s@, i as int) == spec_skip_ws(s@, j as int),
        decreases n - j,
    {
        j += 1;
    }
    proof {
        lemma_skip_ws_bounds(s@, i as int);
    }
    j
}

/// The end of the run of name characters beginning at `i`.
pub open spec fn spec_name_end(s: Seq<char>, i: int) -> int
    recommends
        0 <= i <= s.len(),
    decreases s.len() - i,
{
    if i < 0 || i >= s.len() {
        i
    } else if is_name_char(s[i]) {
        spec_name_end(s, i + 1)
    } else {
        i
    }
}

pub proof fn lemma_name_end_bounds(s: Seq<char>, i: int)
    requires
        0 <= i <= s.len(),
    ensures
        i <= spec_name_end(s, i) <= s.len(),
    decreases s.len() - i,
{
    if i < s.len() && is_name_char(s[i]) {
        lemma_name_end_bounds(s, i + 1);
    }
}

fn name_end(s: &str, i: usize, n: usize) -> (r: usize)
    requires
        n == s@.len(),
        i <= n,
    ensures
        r == spec_name_end(s@, i as int),
        i <= r <= n,
{
    let mut j = i;
    while j < n && is_name_char_exec(s.get_char(j))
        invariant
            n == s@.len(),
            i <= j <= n,
            spec_name_end(s@, i as int) == spec_name_end(s@, j as int),
        decreases n - j,
    {
        j += 1;
    }
    proof {
        lemma_name_end_bounds(s@, i as int);
    }
    j
}

/// The number a run of decimal digits spells out.
pub open spec fn digits_value(s: Seq<char>) -> int
    decreases s.len(),
{
    if s.len() == 0 {
        0
    } else {
        digits_value(s.drop_last()) * 10 + (s.last() as int - 48)
    }
}

pub open spec fn all_digits(s: Seq<char>) -> bool {
    forall|i: int| 0 <= i < s.len() ==> is_digit(#[trigger] s[i])
}

/// What parsing a numeric attribute value yields: the value when the text
/// is one or more decimal digits spelling a number that fits in 32 bits,
/// nothing otherwise.
pub open spec fn spec_parse_u32(s: Seq<char>) -> Option<u32> {
    if s.len() > 0 && all_digits(s) && digits_value(s) <= u32::MAX {
        Some(digits_value(s) as u32)
    } else {
        None
    }
}

fn parse_u32(s: &String) -> (r: Option<u32>)
    ensures
        r == spec_parse_u32(s@),
{
    let text = s.as_str();
    let n = text.unicode_len();
    if n == 0 {
        return None;
    }
    let mut acc: u64 = 0;
    let mut over: bool = false;
    let mut k: usize = 0;
    proof {
        assert(s@.take(0) =~= Seq::<char>::empty());
    }
    while k < n
        invariant
            n == s@.len(),
            text@ == s@,
            k <= n,
            all_digits(s@.take(k as int)),
            over == (digits_value(s@.take(k as int)) > u32::MAX),
            !over ==> acc == digits_value(s@.take(k as int)),
            acc <= u32::MAX,
        decreases n - k,
    {
        let c = text.get_char(k);
        let u = c as u32;
        if u < 48 || u > 57 {
            proof {
                assert(!is_digit(s@[k as int]));
                assert(!all_digits(s@));
            }
            return None;
        }
        proof {
            assert(is_digit(s@[k as int]));
            assert(forall|m: int|
                0 <= m < k + 1 ==> is_digit(#[trigger] s@.take(k as int + 1)[m]));
        }
        let d: u64 = (u - 48) as u64;
        proof {
            let taken = s@.take(k as int + 1);
            assert(taken.drop_last() =~= s@.take(k as int));
            assert(taken.last() == s@[k as int]);
            assert(digits_value(taken) == digits_value(s@.take(k as int)) * 10 + (s@[
                k as int] as int - 48));
            if over {
                assert(digits_value(s@.take(k as int)) * 10 > u32::MAX) by (nonlinear_arith)
                    requires
                        digits_value(s@.take(k as int)) > u32::MAX,
                ;
            }
        }
        if !over {
            let next = acc * 10 + d;
            if next > 0xffff_ffff {
                over = true;
            } else {
                acc = next;
            }
        }
        k += 1;
    }
    proof {
        assert(s@.take(n as int) =~= s@);
    }
    if over {
        None
    } else {
        Some(acc as u32)
    }
}


/// Relies on String::push: it appends exactly one character.
#[verifier::external_body]
fn push_char(s: &mut String, c: char)
    ensures
        final(s)@ == old(s)@.push(c),
{
    s.push(c);
}

/// The index of the first double quote at or after `i`, or the end of the
/// text.
pub open spec fn spec_value_end(s: Seq<char>, i: int) -> int
    recommends
        0 <= i <= s.len(),
    decreases s.len() - i,
{
    if i < 0 || i >= s.len() {
        i
    } else if s[i] == '"' {
        i
    } else {
        spec_value_end(s, i + 1)
    }
}

pub proof fn lemma_value_end_bounds(s: Seq<char>, i: int)
    requires
        0 <= i <= s.len(),
    ensures
        i <= spec_value_end(s, i) <= s.len(),
    decreases s.len() - i,
{
    if i < s.len() && s[i] != '"' {
        lemma_value_end_bounds(s, i + 1);
    }
}

fn value_end(s: &str, i: usize, n: usize) -> (r: usize)
    requires
        n == s@.len(),
        i <= n,
    ensures
        r == spec_value_end(s@, i as int),
        i <= r <= n,
{
    let mut j = i;
    while j < n && s.get_char(j) != '"'
        invariant
            n == s@.len(),
            i <= j <= n,
            spec_value_end(s@, i as int) == spec_value_end(s@, j as int),
        decreases n - j,
    {
        j += 1;
    }
    proof {
        lemma_value_end_bounds(s@, i as int);
    }
    j
}

/// Does an attribute list's accumulated state match its executable form?
pub open spec fn opt_text_matches(x: Option<String>, t: Option<Seq<char>>) -> bool {
    match x {
        Some(v) => t == Some(v@),
        None => t is None,
    }
}

/// The attributes of an open tag, scanned from `i` up to the closing `>` or
/// `/`: yields the value of the first attribute named `number`, if any, and
/// the position of the terminator. `found` carries the value seen so far.
pub open spec fn spec_attrs(s: Seq<char>, i: int, found: Option<Seq<char>>) -> Option<
    (Option<Seq<char>>, int),
>
    recommends
        0 <= i <= s.len(),
    decreases s.len() - i,
{
    let j = spec_skip_ws(s, i);
    if j < 0 || j >= s.len() {
        None
    } else if s[j] == '>' || s[j] == '/' {
        Some((found, j))
    } else {
        let ne = spec_name_end(s, j);
        if ne == j {
            None
        } else {
            let aname = s.subrange(j, ne);
            let k = spec_skip_ws(s, ne);
            if k >= s.len() || s[k] != '=' {
                None
            } else {
                let q = spec_skip_ws(s, k + 1);
                if q >= s.len() || s[q] != '"' {
                    None
                } else {
                    let ve = spec_value_end(s, q + 1);
                    if ve >= s.len() {
                        None
                    } else {
                        let value = s.subrange(q + 1, ve);
                        let found2 = if found is None && aname == "number"@ {
                            Some(value)
                        } else {
                            found
                        };
                        if i < ve + 1 <= s.len() {
                            spec_attrs(s, ve + 1, found2)
                        } else {
                            None
                        }
                    }
                }
            }
        }
    }
}

fn attrs(s: &str, i: usize, n: usize, found: Option<String>) -> (r: Option<(Option<String>, usize)>)
    requires
        n == s@.len(),
        i <= n,
    ensures
        match spec_attrs(s@, i as int, opt_view(found)) {
            Some(t) => r matches Some(x) && opt_text_matches(x.0, t.0) && x.1 == t.1 && i <= x.1
                <= n,
            None => r is None,
        },
    decreases n - i,
{
    let number_name = String::from_str("number");
    proof {
        reveal_strlit("number");
    }
    let mut cur = i;
    let mut acc = found;
    loop
        invariant
            n == s@.len(),
            i <= cur <= n,
            spec_attrs(s@, i as int, opt_view(found)) == spec_attrs(s@, cur as int, opt_view(acc)),
            number_name@ == "number"@,
        decreases n - cur,
    {
        let j = skip_ws(s, cur, n);
        if j >= n {
            return None;
        }
        let c = s.get_char(j);
        if c == '>' || c == '/' {
            return Some((acc, j));
        }
        let ne = name_end(s, j, n);
        if ne == j {
            return None;
        }
        let aname = String::from_str(s.substring_char(j, ne));
        let k = skip_ws(s, ne, n);
        if k >= n || s.get_char(k) != '=' {
            return None;
        }
        let q = skip_ws(s, k + 1, n);
        if q >= n || s.get_char(q) != '"' {
            return None;
        }
        let ve = value_end(s, q + 1, n);
        if ve >= n {
            return None;
        }
        let is_number = acc.is_none() && aname == number_name;
        if is_number {
            let value = String::from_str(s.substring_char(q + 1, ve));
            acc = Some(value);
        }
        if ve + 1 <= cur {
            return None;
        }
        cur = ve + 1;
    }
}

/// The view of an optional owned string.
pub open spec fn opt_view(x: Option<String>) -> Option<Seq<char>> {
    match x {
        Some(v) => Some(v@),
        None => None,
    }
}

/// One markup escape beginning at `i`: the five predefined entities.
pub open spec fn spec_entity(s: Seq<char>, i: int) -> Option<(char, int)>
    recommends
        0 <= i < s.len(),
        s[i] == '&',
{
    if i + 3 < s.len() && s[i + 1] == 'l' && s[i + 2] == 't' && s[i + 3] == ';' {
        Some(('<', i + 4))
    } else if i + 3 < s.len() && s[i + 1] == 'g' && s[i + 2] == 't' && s[i + 3] == ';' {
        Some(('>', i + 4))
    } else if i + 4 < s.len() && s[i + 1] == 'a' && s[i + 2] == 'm' && s[i + 3] == 'p' && s[i + 4]
        == ';' {
        Some(('&', i + 5))
    } else if i + 5 < s.len() && s[i + 1] == 'q' && s[i + 2] == 'u' && s[i + 3] == 'o' && s[i + 4]
        == 't' && s[i + 5] == ';' {
        Some(('"', i + 6))
    } else if i + 5 < s.len() && s[i + 1] == 'a' && s[i + 2] == 'p' && s[i + 3] == 'o' && s[i + 4]
        == 's' && s[i + 5] == ';' {
        Some(('\'', i + 6))
    } else {
        None
    }
}

fn entity(s: &str, i: usize, n: usize) -> (r: Option<(char, usize)>)
    requires
        n == s@.len(),
        i < n,
    ensures
        match spec_entity(s@, i as int) {
            Some(t) => r matches Some(x) && x.0 == t.0 && x.1 == t.1 && i < x.1 <= n,
            None => r is None,
        },
{
    if n - i > 3 && s.get_char(i + 1) == 'l' && s.get_char(i + 2) == 't' && s.get_char(i + 3)
        == ';' {
        Some(('<', i + 4))
    } else if n - i > 3 && s.get_char(i + 1) == 'g' && s.get_char(i + 2) == 't' && s.get_char(
        i + 3,
    ) == ';' {
        Some(('>', i + 4))
    } else if n - i > 4 && s.get_char(i + 1) == 'a' && s.get_char(i + 2) == 'm' && s.get_char(
        i + 3,
    ) == 'p' && s.get_char(i + 4) == ';' {
        Some(('&', i + 5))
    } else if n - i > 5 && s.get_char(i + 1) == 'q' && s.get_char(i + 2) == 'u' && s.get_char(
        i + 3,
    ) == 'o' && s.get_char(i + 4) == 't' && s.get_char(i + 5) == ';' {
        Some(('"', i + 6))
    } else if n - i > 5 && s.get_char(i + 1) == 'a' && s.get_char(i + 2) == 'p' && s.get_char(
        i + 3,
    ) == 'o' && s.get_char(i + 4) == 's' && s.get_char(i + 5) == ';' {
        Some(('\'', i + 6))
    } else {
        None
    }
}

/// The text content of a verse, read from `i` up to the next `<`, with the
/// predefined entities decoded. Fails on an unterminated run or a bad
/// escape.
pub open spec fn spec_text(s: Seq<char>, i: int) -> Option<(Seq<char>, int)>
    recommends
        0 <= i <= s.len(),
    decreases s.len() - i,
{
    if i < 0 || i >= s.len() {
        None
    } else if s[i] == '<' {
        Some((Seq::empty(), i))
    } else if s[i] == '&' {
        match spec_entity(s, i) {
            None => None,
            Some((c, j)) => if i < j <= s.len() {
                match spec_text(s, j) {
                    None => None,
                    Some((rest, end)) => Some((seq![c] + rest, end)),
                }
            } else {
                None
            },
        }
    } else {
        match spec_text(s, i + 1) {
            None => None,
            Some((rest, end)) => Some((seq![s[i]] + rest, end)),
        }
    }
}

fn text_run(s: &str, i: usize, n: usize) -> (r: Option<(String, usize)>)
    requires
        n == s@.len(),
        i <= n,
    ensures
        match spec_text(s@, i as int) {
            Some(t) => r matches Some(x) && x.0@ == t.0 && x.1 == t.1 && i <= x.1 <= n,
            None => r is None,
        },
    decreases n - i,
{
    let mut out = String::new();
    let mut cur = i;
    loop
        invariant
            n == s@.len(),
            i <= cur <= n,
            match spec_text(s@, i as int) {
                Some(t) => (match spec_text(s@, cur as int) {
                    Some(u) => t.0 == out@ + u.0 && t.1 == u.1,
                    None => false,
                }),
                None => spec_text(s@, cur as int) is None,
            },
        decreases n - cur,
    {
        if cur >= n {
            return None;
        }
        let c = s.get_char(cur);
        if c == '<' {
            proof {
                assert(out@ + Seq::<char>::empty() =~= out@);
            }
            return Some((out, cur));
        }
        if c == '&' {
            match entity(s, cur, n) {
                None => {
                    return None;
                },
                Some((d, j)) => {
                    proof {
                        assert forall|rest: Seq<char>|
                            out@ + (seq![d] + rest) =~= out@.push(d) + rest by {}
                    }
                    push_char(&mut out, d);
                    cur = j;
                },
            }
        } else {
            proof {
                assert forall|rest: Seq<char>| out@ + (seq![c] + rest) =~= out@.push(c) + rest by {}
            }
            push_char(&mut out, c);
            cur = cur + 1;
        }
    }
}


/// An element's opening tag at `i`: its name, the value of its `number`
/// attribute if it has one, whether the element is self-closing, and the
/// position just past the tag.
pub open spec fn spec_open_tag(s: Seq<char>, i: int) -> Option<
    (Seq<char>, Option<Seq<char>>, bool, int),
> {
    if i < 0 || i >= s.len() || s[i] != '<' {
        None
    } else {
        let ne = spec_name_end(s, i + 1);
        if ne == i + 1 {
            None
        } else {
            let name = s.subrange(i + 1, ne);
            match spec_attrs(s, ne, None) {
                None => None,
                Some((num, j)) => {
                    if j < s.len() && s[j] == '>' {
                        Some((name, num, false, j + 1))
                    } else if j + 1 < s.len() && s[j] == '/' && s[j + 1] == '>' {
                        Some((name, num, true, j + 2))
                    } else {
                        None
                    }
                },
            }
        }
    }
}

fn open_tag(s: &str, i: usize, n: usize) -> (r: Option<(String, Option<String>, bool, usize)>)
    requires
        n == s@.len(),
        i <= n,
    ensures
        match spec_open_tag(s@, i as int) {
            Some(t) => r matches Some(x) && x.0@ == t.0 && opt_text_matches(x.1, t.1) && x.2
                == t.2 && x.3 == t.3 && i < x.3 <= n,
            None => r is None,
        },
{
    if i >= n || s.get_char(i) != '<' {
        return None;
    }
    let ne = name_end(s, i + 1, n);
    if ne == i + 1 {
        return None;
    }
    let name = String::from_str(s.substring_char(i + 1, ne));
    match attrs(s, ne, n, None) {
        None => None,
        Some((num, j)) => {
            if j < n && s.get_char(j) == '>' {
                Some((name, num, false, j + 1))
            } else if j < n && s.get_char(j) == '/' && j + 1 < n && s.get_char(j + 1) == '>' {
                Some((name, num, true, j + 2))
            } else {
                None
            }
        },
    }
}

/// A closing tag at `i` whose name must match the opening tag's.
pub open spec fn spec_close_tag(s: Seq<char>, i: int, name: Seq<char>) -> Option<int> {
    if i < 0 || i + 1 >= s.len() || s[i] != '<' || s[i + 1] != '/' {
        None
    } else {
        let ne = spec_name_end(s, i + 2);
        if s.subrange(i + 2, ne) != name {
            None
        } else {
            let j = spec_skip_ws(s, ne);
            if j < s.len() && s[j] == '>' {
                Some(j + 1)
            } else {
                None
            }
        }
    }
}

fn close_tag(s: &str, i: usize, n: usize, name: &String) -> (r: Option<usize>)
    requires
        n == s@.len(),
        i <= n,
    ensures
        match spec_close_tag(s@, i as int, name@) {
            Some(t) => r matches Some(x) && x == t && i < x <= n,
            None => r is None,
        },
{
    if i >= n || n - i < 2 {
        return None;
    }
    if s.get_char(i) != '<' || s.get_char(i + 1) != '/' {
        return None;
    }
    let ne = name_end(s, i + 2, n);
    let tagname = String::from_str(s.substring_char(i + 2, ne));
    if !(tagname == *name) {
        return None;
    }
    let j = skip_ws(s, ne, n);
    if j < n && s.get_char(j) == '>' {
        Some(j + 1)
    } else {
        None
    }
}

/// One verse element: a required numeric `number` attribute and text
/// content with entities decoded.
pub open spec fn spec_verse(s: Seq<char>, i: int) -> Option<(VerseView, int)> {
    match spec_open_tag(s, i) {
        None => None,
        Some((name, num, selfclosed, j)) => match num {
            None => None,
            Some(value) => match spec_parse_u32(value) {
                None => None,
                Some(number) => {
                    if selfclosed {
                        Some((VerseView { number, text: Seq::empty() }, j))
                    } else {
                        match spec_text(s, j) {
                            None => None,
                            Some((text, k)) => match spec_close_tag(s, k, name) {
                                None => None,
                                Some(end) => Some((VerseView { number, text }, end)),
                            },
                        }
                    }
                },
            },
        },
    }
}

fn verse(s: &str, i: usize, n: usize) -> (r: Option<(Verse, usize)>)
    requires
        n == s@.len(),
        i <= n,
    ensures
        match spec_verse(s@, i as int) {
            Some(t) => r matches Some(x) && x.0@ == t.0 && x.1 == t.1 && i < x.1 <= n,
            None => r is None,
        },
{
    let (name, num, selfclosed, j) = match open_tag(s, i, n) {
        Some(x) => x,
        None => {
            return None;
        },
    };
    let value = match num {
        Some(v) => v,
        None => {
            return None;
        },
    };
    let number = match parse_u32(&value) {
        Some(x) => x,
        None => {
            return None;
        },
    };
    if selfclosed {
        return Some((Verse { number, text: String::new() }, j));
    }
    let (text, k) = match text_run(s, j, n) {
        Some(x) => x,
        None => {
            return None;
        },
    };
    let end = match close_tag(s, k, n, &name) {
        Some(x) => x,
        None => {
            return None;
        },
    };
    Some((Verse { number, text }, end))
}


/// The verses of one parent element, read until the parent's closing tag.
pub open spec fn spec_verses(s: Seq<char>, i: int) -> Option<(Seq<VerseView>, int)>
    decreases s.len() - i,
{
    if i < 0 || i > s.len() {
        None
    } else {
        let j = spec_skip_ws(s, i);
        if j + 1 < s.len() && s[j] == '<' && s[j + 1] == '/' {
            Some((Seq::empty(), j))
        } else {
            match spec_verse(s, j) {
                None => None,
                Some((v, k)) => {
                    if i < k <= s.len() {
                        match spec_verses(s, k) {
                            None => None,
                            Some((rest, end)) => Some((seq![v] + rest, end)),
                        }
                    } else {
                        None
                    }
                },
            }
        }
    }
}

fn verses(s: &str, i: usize, n: usize) -> (r: Option<(Vec<Verse>, usize)>)
    requires
        n == s@.len(),
        i <= n,
    ensures
        match spec_verses(s@, i as int) {
            Some(t) => r matches Some(x) && verse_views(x.0@) == t.0 && x.1 == t.1 && i <= x.1
                <= n,
            None => r is None,
        },
{
    let mut out: Vec<Verse> = Vec::new();
    let mut cur = i;
    proof {
        assert(verse_views(out@) =~= Seq::<VerseView>::empty());
    }
    loop
        invariant
            n == s@.len(),
            i <= cur <= n,
            match spec_verses(s@, i as int) {
                Some(t) => (match spec_verses(s@, cur as int) {
                    Some(u) => t.0 == verse_views(out@) + u.0 && t.1 == u.1,
                    None => false,
                }),
                None => spec_verses(s@, cur as int) is None,
            },
        decreases n - cur,
    {
        let j = skip_ws(s, cur, n);
        if n - j > 1 && s.get_char(j) == '<' && s.get_char(j + 1) == '/' {
            proof {
                assert(verse_views(out@) + Seq::<VerseView>::empty() =~= verse_views(out@));
            }
            return Some((out, j));
        }
        let (v, k) = match verse(s, j, n) {
            Some(x) => x,
            None => {
                return None;
            },
        };
        proof {
            let old_views = verse_views(out@);
            assert(verse_views(out@.push(v)) =~= old_views.push(v@));
            assert forall|rest: Seq<VerseView>|
                old_views + (seq![v@] + rest) =~= old_views.push(v@) + rest by {}
        }
        out.push(v);
        cur = k;
    }
}

/// One chapter element: a required numeric `number` attribute, then its
/// verses in document order.
pub open spec fn spec_chapter(s: Seq<char>, i: int) -> Option<(ChapterView, int)> {
    match spec_open_tag(s, i) {
        None => None,
        Some((name, num, selfclosed, j)) => match num {
            None => None,
            Some(value) => match spec_parse_u32(value) {
                None => None,
                Some(number) => {
                    if selfclosed {
                        Some((ChapterView { number, verses: Seq::empty() }, j))
                    } else {
                        match spec_verses(s, j) {
                            None => None,
                            Some((verses, k)) => match spec_close_tag(s, k, name) {
                                None => None,
                                Some(end) => Some((ChapterView { number, verses }, end)),
                            },
                        }
                    }
                },
            },
        },
    }
}

fn chapter(s: &str, i: usize, n: usize) -> (r: Option<(Chapter, usize)>)
    requires
        n == s@.len(),
        i <= n,
    ensures
        match spec_chapter(s@, i as int) {
            Some(t) => r matches Some(x) && x.0@ == t.0 && x.1 == t.1 && i < x.1 <= n,
            None => r is None,
        },
{
    let (name, num, selfclosed, j) = match open_tag(s, i, n) {
        Some(x) => x,
        None => {
            return None;
        },
    };
    let value = match num {
        Some(v) => v,
        None => {
            return None;
        },
    };
    let number = match parse_u32(&value) {
        Some(x) => x,
        None => {
            return None;
        },
    };
    if selfclosed {
        let c = Chapter { number, verses: Vec::new() };
        proof {
            assert(c@.verses =~= Seq::<VerseView>::empty());
        }
        return Some((c, j));
    }
    let (vs, k) = match verses(s, j, n) {
        Some(x) => x,
        None => {
            return None;
        },
    };
    let end = match close_tag(s, k, n, &name) {
        Some(x) => x,
        None => {
            return None;
        },
    };
    let c = Chapter { number, verses: vs };
    proof {
        assert(c@.verses =~= verse_views(c.verses@));
    }
    Some((c, end))
}

/// The chapters of one parent element, read until the parent's closing tag.
pub open spec fn spec_chapters(s: Seq<char>, i: int) -> Option<(Seq<ChapterView>, int)>
    decreases s.len() - i,
{
    if i < 0 || i > s.len() {
        None
    } else {
        let j = spec_skip_ws(s, i);
        if j + 1 < s.len() && s[j] == '<' && s[j + 1] == '/' {
            Some((Seq::empty(), j))
        } else {
            match spec_chapter(s, j) {
                None => None,
                Some((v, k)) => {
                    if i < k <= s.len() {
                        match spec_chapters(s, k) {
                            None => None,
                            Some((rest, end)) => Some((seq![v] + rest, end)),
                        }
                    } else {
                        None
                    }
                },
            }
        }
    }
}

fn chapters(s: &str, i: usize, n: usize) -> (r: Option<(Vec<Chapter>, usize)>)
    requires
        n == s@.len(),
        i <= n,
    ensures
        match spec_chapters(s@, i as int) {
            Some(t) => r matches Some(x) && chapter_views(x.0@) == t.0 && x.1 == t.1 && i <= x.1
                <= n,
            None => r is None,
        },
{
    let mut out: Vec<Chapter> = Vec::new();
    let mut cur = i;
    proof {
        assert(chapter_views(out@) =~= Seq::<ChapterView>::empty());
    }
    loop
        invariant
            n == s@.len(),
            i <= cur <= n,
            match spec_chapters(s@, i as int) {
                Some(t) => (match spec_chapters(s@, cur as int) {
                    Some(u) => t.0 == chapter_views(out@) + u.0 && t.1 == u.1,
                    None => false,
                }),
                None => spec_chapters(s@, cur as int) is None,
            },
        decreases n - cur,
    {
        let j = skip_ws(s, cur, n);
        if n - j > 1 && s.get_char(j) == '<' && s.get_char(j + 1) == '/' {
            proof {
                assert(chapter_views(out@) + Seq::<ChapterView>::empty() =~= chapter_views(out@));
            }
            return Some((out, j));
        }
        let (v, k) = match chapter(s, j, n) {
            Some(x) => x,
            None => {
                return None;
            },
        };
        proof {
            let old_views = chapter_views(out@);
            assert(chapter_views(out@.push(v)) =~= old_views.push(v@));
            assert forall|rest: Seq<ChapterView>|
                old_views + (seq![v@] + rest) =~= old_views.push(v@) + rest by {}
        }
        out.push(v);
        cur = k;
    }
}

/// One book element: its declared index must map to a known book identity,
/// then its chapters in document order.
pub open spec fn spec_book(s: Seq<char>, i: int) -> Option<(BookView, int)> {
    match spec_open_tag(s, i) {
        None => None,
        Some((name, num, selfclosed, j)) => match num {
            None => None,
            Some(value) => match spec_parse_u32(value) {
                None => None,
                Some(index) => match BookName::spec_from_index(index) {
                    None => None,
                    Some(book_name) => {
                        if selfclosed {
                            Some((BookView { name: book_name, chapters: Seq::empty() }, j))
                        } else {
                            match spec_chapters(s, j) {
                                None => None,
                                Some((chapters, k)) => match spec_close_tag(s, k, name) {
                                    None => None,
                                    Some(end) => Some(
                                        (BookView { name: book_name, chapters }, end),
                                    ),
                                },
                            }
                        }
                    },
                },
            },
        },
    }
}

fn book(s: &str, i: usize, n: usize) -> (r: Option<(Book, usize)>)
    requires
        n == s@.len(),
        i <= n,
    ensures
        match spec_book(s@, i as int) {
            Some(t) => r matches Some(x) && x.0@ == t.0 && x.1 == t.1 && i < x.1 <= n,
            None => r is None,
        },
{
    let (name, num, selfclosed, j) = match open_tag(s, i, n) {
        Some(x) => x,
        None => {
            return None;
        },
    };
    let value = match num {
        Some(v) => v,
        None => {
            return None;
        },
    };
    let index = match parse_u32(&value) {
        Some(x) => x,
        None => {
            return None;
        },
    };
    let book_name = match BookName::from_index(index) {
        Some(x) => x,
        None => {
            return None;
        },
    };
    if selfclosed {
        let b = Book { name: book_name, chapters: Vec::new() };
        proof {
            assert(b@.chapters =~= Seq::<ChapterView>::empty());
        }
        return Some((b, j));
    }
    let (cs, k) = match chapters(s, j, n) {
        Some(x) => x,
        None => {
            return None;
        },
    };
    let end = match close_tag(s, k, n, &name) {
        Some(x) => x,
        None => {
            return None;
        },
    };
    let b = Book { name: book_name, chapters: cs };
    proof {
        assert(b@.chapters =~= chapter_views(b.chapters@));
    }
    Some((b, end))
}

/// The books of one parent element, read until the parent's closing tag.
pub open spec fn spec_books(s: Seq<char>, i: int) -> Option<(Seq<BookView>, int)>
    decreases s.len() - i,
{
    if i < 0 || i > s.len() {
        None
    } else {
        let j = spec_skip_ws(s, i);
        if j + 1 < s.len() && s[j] == '<' && s[j + 1] == '/' {
            Some((Seq::empty(), j))
        } else {
            match spec_book(s, j) {
                None => None,
                Some((v, k)) => {
                    if i < k <= s.len() {
                        match spec_books(s, k) {
                            None => None,
                            Some((rest, end)) => Some((seq![v] + rest, end)),
                        }
                    } else {
                        None
                    }
                },
            }
        }
    }
}

fn books(s: &str, i: usize, n: usize) -> (r: Option<(Vec<Book>, usize)>)
    requires
        n == s@.len(),
        i <= n,
    ensures
        match spec_books(s@, i as int) {
            Some(t) => r matches Some(x) && book_views(x.0@) == t.0 && x.1 == t.1 && i <= x.1
                <= n,
            None => r is None,
        },
{
    let mut out: Vec<Book> = Vec::new();
    let mut cur = i;
    proof {
        assert(book_views(out@) =~= Seq::<BookView>::empty());
    }
    loop
        invariant
            n == s@.len(),
            i <= cur <= n,
            match spec_books(s@, i as int) {
                Some(t) => (match spec_books(s@, cur as int) {
                    Some(u) => t.0 == book_views(out@) + u.0 && t.1 == u.1,
                    None => false,
                }),
                None => spec_books(s@, cur as int) is None,
            },
        decreases n - cur,
    {
        let j = skip_ws(s, cur, n);
        if n - j > 1 && s.get_char(j) == '<' && s.get_char(j + 1) == '/' {
            proof {
                assert(book_views(out@) + Seq::<BookView>::empty() =~= book_views(out@));
            }
            return Some((out, j));
        }
        let (v, k) = match book(s, j, n) {
            Some(x) => x,
            None => {
                return None;
            },
        };
        proof {
            let old_views = book_views(out@);
            assert(book_views(out@.push(v)) =~= old_views.push(v@));
            assert forall|rest: Seq<BookView>|
                old_views + (seq![v@] + rest) =~= old_views.push(v@) + rest by {}
        }
        out.push(v);
        cur = k;
    }
}

/// One testament group: a container whose children are books; its own
/// attributes are ignored.
pub open spec fn spec_testament(s: Seq<char>, i: int) -> Option<(Seq<BookView>, int)> {
    match spec_open_tag(s, i) {
        None => None,
        Some((name, num, selfclosed, j)) => {
            if selfclosed {
                Some((Seq::empty(), j))
            } else {
                match spec_books(s, j) {
                    None => None,
                    Some((books, k)) => match spec_close_tag(s, k, name) {
                        None => None,
                        Some(end) => Some((books, end)),
                    },
                }
            }
        },
    }
}

fn testament(s: &str, i: usize, n: usize) -> (r: Option<(Vec<Book>, usize)>)
    requires
        n == s@.len(),
        i <= n,
    ensures
        match spec_testament(s@, i as int) {
            Some(t) => r matches Some(x) && book_views(x.0@) == t.0 && x.1 == t.1 && i < x.1
                <= n,
            None => r is None,
        },
{
    let (name, num, selfclosed, j) = match open_tag(s, i, n) {
        Some(x) => x,
        None => {
            return None;
        },
    };
    if selfclosed {
        let out: Vec<Book> = Vec::new();
        proof {
            assert(book_views(out@) =~= Seq::<BookView>::empty());
        }
        return Some((out, j));
    }
    let (bs, k) = match books(s, j, n) {
        Some(x) => x,
        None => {
            return None;
        },
    };
    let end = match close_tag(s, k, n, &name) {
        Some(x) => x,
        None => {
            return None;
        },
    };
    Some((bs, end))
}

/// The testament groups of the root element, their books concatenated in
/// document order.
pub open spec fn spec_testaments(s: Seq<char>, i: int) -> Option<(Seq<BookView>, int)>
    decreases s.len() - i,
{
    if i < 0 || i > s.len() {
        None
    } else {
        let j = spec_skip_ws(s, i);
        if j + 1 < s.len() && s[j] == '<' && s[j + 1] == '/' {
            Some((Seq::empty(), j))
        } else {
            match spec_testament(s, j) {
                None => None,
                Some((books, k)) => {
                    if i < k <= s.len() {
                        match spec_testaments(s, k) {
                            None => None,
                            Some((rest, end)) => Some((books + rest, end)),
                        }
                    } else {
                        None
                    }
                },
            }
        }
    }
}

fn testaments(s: &str, i: usize, n: usize) -> (r: Option<(Vec<Book>, usize)>)
    requires
        n == s@.len(),
        i <= n,
    ensures
        match spec_testaments(s@, i as int) {
            Some(t) => r matches Some(x) && book_views(x.0@) == t.0 && x.1 == t.1 && i <= x.1
                <= n,
            None => r is None,
        },
{
    let mut out: Vec<Book> = Vec::new();
    let mut cur = i;
    proof {
        assert(book_views(out@) =~= Seq::<BookView>::empty());
    }
    loop
        invariant
            n == s@.len(),
            i <= cur <= n,
            match spec_testaments(s@, i as int) {
                Some(t) => (match spec_testaments(s@, cur as int) {
                    Some(u) => t.0 == book_views(out@) + u.0 && t.1 == u.1,
                    None => false,
                }),
                None => spec_testaments(s@, cur as int) is None,
            },
        decreases n - cur,
    {
        let j = skip_ws(s, cur, n);
        if n - j > 1 && s.get_char(j) == '<' && s.get_char(j + 1) == '/' {
            proof {
                assert(book_views(out@) + Seq::<BookView>::empty() =~= book_views(out@));
            }
            return Some((out, j));
        }
        let (mut bs, k) = match testament(s, j, n) {
            Some(x) => x,
            None => {
                return None;
            },
        };
        proof {
            let old_views = book_views(out@);
            let new_views = book_views(bs@);
            assert(book_views(out@ + bs@) =~= old_views + new_views);
            assert forall|rest: Seq<BookView>|
                old_views + (new_views + rest) =~= (old_views + new_views) + rest by {}
        }
        out.append(&mut bs);
        cur = k;
    }
}

/// The position just past a processing-instruction prologue's `?>`.
pub open spec fn spec_pi_end(s: Seq<char>, i: int) -> Option<int>
    decreases s.len() - i,
{
    if i < 0 || i + 1 >= s.len() {
        None
    } else if s[i] == '?' && s[i + 1] == '>' {
        Some(i + 2)
    } else {
        spec_pi_end(s, i + 1)
    }
}

fn pi_end(s: &str, i: usize, n: usize) -> (r: Option<usize>)
    requires
        n == s@.len(),
        i <= n,
    ensures
        match spec_pi_end(s@, i as int) {
            Some(t) => r matches Some(x) && x == t && i < x <= n,
            None => r is None,
        },
{
    let mut cur = i;
    loop
        invariant
            n == s@.len(),
            i <= cur <= n,
            spec_pi_end(s@, i as int) == spec_pi_end(s@, cur as int),
        decreases n - cur,
    {
        if cur >= n || n - cur < 2 {
            return None;
        }
        if s.get_char(cur) == '?' && s.get_char(cur + 1) == '>' {
            return Some(cur + 2);
        }
        cur += 1;
    }
}

/// The root element: a container whose children are the testament groups.
pub open spec fn spec_root(s: Seq<char>, i: int) -> Option<(Seq<BookView>, int)> {
    match spec_open_tag(s, i) {
        None => None,
        Some((name, num, selfclosed, j)) => {
            if selfclosed {
                Some((Seq::empty(), j))
            } else {
                match spec_testaments(s, j) {
                    None => None,
                    Some((books, k)) => match spec_close_tag(s, k, name) {
                        None => None,
                        Some(end) => Some((books, end)),
                    },
                }
            }
        },
    }
}

fn root(s: &str, i: usize, n: usize) -> (r: Option<(Vec<Book>, usize)>)
    requires
        n == s@.len(),
        i <= n,
    ensures
        match spec_root(s@, i as int) {
            Some(t) => r matches Some(x) && book_views(x.0@) == t.0 && x.1 == t.1 && i < x.1
                <= n,
            None => r is None,
        },
{
    let (name, num, selfclosed, j) = match open_tag(s, i, n) {
        Some(x) => x,
        None => {
            return None;
        },
    };
    if selfclosed {
        let out: Vec<Book> = Vec::new();
        proof {
            assert(book_views(out@) =~= Seq::<BookView>::empty());
        }
        return Some((out, j));
    }
    let (bs, k) = match testaments(s, j, n) {
        Some(x) => x,
        None => {
            return None;
        },
    };
    let end = match close_tag(s, k, n, &name) {
        Some(x) => x,
        None => {
            return None;
        },
    };
    Some((bs, end))
}

/// A whole source document: optional whitespace and processing-instruction
/// prologue, the root element, and nothing but whitespace after it.
pub open spec fn spec_document(s: Seq<char>) -> Option<Seq<BookView>> {
    let i = spec_skip_ws(s, 0);
    if i + 1 < s.len() && s[i] == '<' && s[i + 1] == '?' {
        match spec_pi_end(s, i + 2) {
            None => None,
            Some(p) => spec_document_body(s, p),
        }
    } else {
        spec_document_body(s, i)
    }
}

/// The root element at `p` and the trailing whitespace check.
pub open spec fn spec_document_body(s: Seq<char>, p: int) -> Option<Seq<BookView>> {
    if p < 0 || p > s.len() {
        None
    } else {
        match spec_root(s, spec_skip_ws(s, p)) {
            None => None,
            Some((books, k)) => {
                if 0 <= k <= s.len() && spec_skip_ws(s, k) == s.len() {
                    Some(books)
                } else {
                    None
                }
            },
        }
    }
}

fn document(s: &str, n: usize) -> (r: Option<Vec<Book>>)
    requires
        n == s@.len(),
    ensures
        match spec_document(s@) {
            Some(t) => r matches Some(x) && book_views(x@) == t,
            None => r is None,
        },
{
    let i = skip_ws(s, 0, n);
    let p: usize = if n - i > 1 && s.get_char(i) == '<' && s.get_char(i + 1) == '?' {
        match pi_end(s, i + 2, n) {
            Some(x) => x,
            None => {
                return None;
            },
        }
    } else {
        i
    };
    let start = skip_ws(s, p, n);
    let (bs, k) = match root(s, start, n) {
        Some(x) => x,
        None => {
            return None;
        },
    };
    let e = skip_ws(s, k, n);
    if e != n {
        return None;
    }
    Some(bs)
}

/// What importing a source document yields: the books its markup spells
/// out, under the requested edition, or nothing when the markup is not a
/// well-formed document of this shape.
pub open spec fn spec_import(s: Seq<char>, edition: Edition) -> Option<BibleView> {
    match spec_document(s) {
        None => None,
        Some(books) => Some(BibleView { books, edition }),
    }
}

impl Bible {
    /// Transforms one source document into the corpus for the given
    /// edition. Walks the markup two testament groups deep, then book,
    /// chapter and verse, in document order; verse text is the decoded
    /// content of the verse node, with markup escapes resolved and nothing
    /// else changed. Any structural violation - malformed markup, a
    /// missing or non-numeric index, or a book index outside 1 through 66
    /// - fails the whole import; no partial corpus is produced.
    pub fn import(source: &str, edition: Edition) -> (r: Result<Bible, MalformedSource>)
        ensures
            match spec_import(source@, edition) {
                Some(bv) => r matches Ok(b) && b@ == bv,
                None => r matches Err(e) && e == MalformedSource,
            },
    {
        let n = source.unicode_len();
        match document(source, n) {
            None => Err(MalformedSource),
            Some(books) => {
                let b = Bible { books, edition };
                proof {
                    assert(b@.books =~= book_views(b.books@));
                }
                Ok(b)
            },
        }
    }
}

} // verus!
