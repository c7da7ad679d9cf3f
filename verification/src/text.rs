//! Text primitives: scanning, trimming, number parsing and rendering.
//!
//! Contracts speak of a text as its sequence of characters. The functions
//! that scan take the characters as a vector together with the bounds of the
//! piece they look at, so that nothing is copied until a result is cut out.

use vstd::prelude::*;
use vstd::utf8::{decode_utf8, valid_utf8};

verus! {

/// `String::push` of std appends one character.
pub assume_specification[ String::push ](s: &mut String, ch: char)
    ensures
        final(s)@ == old(s)@.push(ch),
;

/// What `String::from_utf8_lossy` makes of a byte sequence.
pub uninterp spec fn lossy_text(bytes: Seq<u8>) -> Seq<char>;

/// `String::from_utf8_lossy` of std: bytes that are valid UTF-8 decode to the
/// text they encode; in any other input the invalid parts are replaced, which
/// is left unsaid beyond naming the result.
#[verifier::external_body]
pub(crate) fn from_utf8_lossy(bytes: &[u8]) -> (text: String)
    ensures
        text@ == lossy_text(bytes@),
        valid_utf8(bytes@) ==> text@ == decode_utf8(bytes@),
{
    String::from_utf8_lossy(bytes).into_owned()
}

/// How std's `Debug` shows a string: quoted, with special characters escaped.
pub uninterp spec fn debug_text(text: Seq<char>) -> Seq<char>;

/// `format!("{:?}")` of std on a string. Which characters are escaped, and
/// how, is left unsaid beyond naming the result.
#[verifier::external_body]
pub(crate) fn quote(text: &str) -> (quoted: String)
    ensures
        quoted@ == debug_text(text@),
{
    format!("{:?}", text)
}

/// The characters of `text`.
pub fn chars_of(text: &str) -> (chars: Vec<char>)
    ensures
        chars@ == text@,
{
    let mut chars: Vec<char> = Vec::new();
    for c in iter: text.chars()
        invariant
            chars@ == iter.seq().take(iter.index() as int),
            iter.seq() == text@,
    {
        chars.push(c);
    }
    chars
}

/// The text made of `chars[from..to]`.
pub fn cut(chars: &Vec<char>, from: usize, to: usize) -> (text: String)
    requires
        from <= to <= chars.len(),
    ensures
        text@ == chars@.subrange(from as int, to as int),
{
    let mut text = String::new();
    let mut i: usize = from;
    while i < to
        invariant
            from <= i <= to <= chars.len(),
            text@ == chars@.subrange(from as int, i as int),
        decreases to - i,
    {
        text.push(chars[i]);
        i = i + 1;
    }
    text
}

/// Whether two texts are the same, character by character.
pub fn same(a: &str, b: &str) -> (equal: bool)
    ensures
        equal == (a@ == b@),
{
    a.to_owned() == b.to_owned()
}

/// A copy of an optional text.
pub fn copied(text: &Option<String>) -> (copy: Option<String>)
    ensures
        copy == *text,
{
    match text {
        Some(inner) => Some(inner.clone()),
        None => None,
    }
}

/// A copy of a list of texts.
pub fn copied_all(texts: &Vec<String>) -> (copy: Vec<String>)
    ensures
        copy@ == texts@,
{
    let mut copy: Vec<String> = Vec::new();
    let mut i: usize = 0;
    while i < texts.len()
        invariant
            i <= texts.len(),
            copy@ == texts@.take(i as int),
        decreases texts.len() - i,
    {
        copy.push(texts[i].clone());
        i = i + 1;
    }
    copy
}

/// Whether `list` holds `text`.
pub open spec fn lists(list: Seq<String>, text: Seq<char>) -> bool {
    exists|i: int| 0 <= i < list.len() && #[trigger] list[i]@ == text
}

/// Whether `list` holds `text`.
pub fn contains_text(list: &Vec<String>, text: &str) -> (found: bool)
    ensures
        found == lists(list@, text@),
{
    let mut i: usize = 0;
    while i < list.len()
        invariant
            i <= list.len(),
            forall|j: int| 0 <= j < i ==> #[trigger] list@[j]@ != text@,
        decreases list.len() - i,
    {
        if same(list[i].as_str(), text) {
            return true;
        }
        i = i + 1;
    }
    false
}

/// The texts of `parts`, with `glue` between any two of them.
pub open spec fn joined(parts: Seq<Seq<char>>, glue: Seq<char>) -> Seq<char>
    decreases parts.len(),
{
    if parts.len() == 0 {
        Seq::empty()
    } else if parts.len() == 1 {
        parts[0]
    } else {
        joined(parts.drop_last(), glue) + glue + parts.last()
    }
}

/// The views of a list of texts.
pub open spec fn views(list: Seq<String>) -> Seq<Seq<char>> {
    list.map_values(|s: String| s@)
}

/// Joins `parts` with `glue` between any two of them.
pub fn join(parts: &Vec<String>, glue: &str) -> (text: String)
    ensures
        text@ == joined(views(parts@), glue@),
{
    let mut text = String::new();
    let mut i: usize = 0;
    while i < parts.len()
        invariant
            i <= parts.len(),
            text@ == joined(views(parts@).take(i as int), glue@),
        decreases parts.len() - i,
    {
        let ghost grown = views(parts@).take(i + 1);
        assert(grown.drop_last() =~= views(parts@).take(i as int));
        if i > 0 {
            text.append(glue);
        }
        text.append(parts[i].as_str());
        i = i + 1;
    }
    assert(views(parts@).take(i as int) =~= views(parts@));
    text
}

// ---------------------------------------------------------------------------
// Prefixes, suffixes, substrings
// ---------------------------------------------------------------------------

/// Whether `text` begins with `prefix`.
pub open spec fn starts(text: Seq<char>, prefix: Seq<char>) -> bool {
    prefix.len() <= text.len() && text.take(prefix.len() as int) == prefix
}

/// Whether `text` ends with `suffix`.
pub open spec fn ends(text: Seq<char>, suffix: Seq<char>) -> bool {
    suffix.len() <= text.len() && text.skip(text.len() - suffix.len()) == suffix
}

/// Whether `needle` occurs in `text` at `at`.
pub open spec fn occurs_at(text: Seq<char>, needle: Seq<char>, at: int) -> bool {
    0 <= at && at + needle.len() <= text.len() && text.subrange(at, at + needle.len()) == needle
}

/// Whether `needle` occurs somewhere in `text`.
pub open spec fn holds(text: Seq<char>, needle: Seq<char>) -> bool {
    exists|at: int| #[trigger] occurs_at(text, needle, at)
}

/// Whether `needle` occurs in `chars[..to]` at `at`.
pub(crate) fn match_at(chars: &Vec<char>, to: usize, needle: &Vec<char>, at: usize) -> (found: bool)
    requires
        to <= chars.len(),
    ensures
        found == occurs_at(chars@.take(to as int), needle@, at as int),
{
    if at > to || needle.len() > to - at {
        return false;
    }
    let mut i: usize = 0;
    while i < needle.len()
        invariant
            i <= needle.len(),
            at + needle.len() <= to <= chars.len(),
            forall|j: int| 0 <= j < i ==> chars@[at + j] == needle@[j],
        decreases needle.len() - i,
    {
        if chars[at + i] != needle[i] {
            assert(chars@.take(to as int).subrange(at as int, at + needle.len())[i as int] != needle@[i as int]);
            return false;
        }
        i = i + 1;
    }
    assert(chars@.take(to as int).subrange(at as int, at + needle.len()) =~= needle@);
    true
}

/// Whether `text` begins with `prefix`.
pub fn starts_with(text: &str, prefix: &str) -> (yes: bool)
    ensures
        yes == starts(text@, prefix@),
{
    let chars = chars_of(text);
    let wanted = chars_of(prefix);
    let yes = match_at(&chars, chars.len(), &wanted, 0);
    proof {
        assert(chars@.take(chars@.len() as int) =~= text@);
        if wanted@.len() <= chars@.len() {
            assert(text@.subrange(0, wanted@.len() as int) =~= text@.take(wanted@.len() as int));
        }
    }
    yes
}

/// Whether `needle` occurs in `text`.
pub fn contains(text: &str, needle: &str) -> (yes: bool)
    ensures
        yes == holds(text@, needle@),
{
    let chars = chars_of(text);
    let wanted = chars_of(needle);
    let mut at: usize = 0;
    assert(chars@.take(chars@.len() as int) =~= text@);
    while at <= chars.len()
        invariant
            at <= chars.len() + 1,
            chars@ == text@,
            chars@.take(chars@.len() as int) == text@,
            wanted@ == needle@,
            forall|i: int| 0 <= i < at ==> !#[trigger] occurs_at(text@, needle@, i),
        decreases chars.len() + 1 - at,
    {
        if match_at(&chars, chars.len(), &wanted, at) {
            return true;
        }
        if at == chars.len() {
            assert(forall|i: int| #[trigger] occurs_at(text@, needle@, i) ==> 0 <= i <= at);
            return false;
        }
        at = at + 1;
    }
    false
}

/// `text` without a leading `prefix`, or `None` when it does not begin so.
pub fn strip_prefix(text: &str, prefix: &str) -> (rest: Option<String>)
    ensures
        starts(text@, prefix@) ==> rest is Some && rest->0@ == text@.skip(prefix@.len() as int),
        !starts(text@, prefix@) ==> rest is None,
{
    if starts_with(text, prefix) {
        let chars = chars_of(text);
        let wanted = chars_of(prefix);
        let rest = cut(&chars, wanted.len(), chars.len());
        assert(rest@ =~= text@.skip(prefix@.len() as int));
        Some(rest)
    } else {
        None
    }
}

/// A text that begins with a needle holds it, and so does every text that
/// the needle is a part of.
pub proof fn lemma_holds_middle(before: Seq<char>, needle: Seq<char>, after: Seq<char>)
    ensures
        holds(before + needle + after, needle),
{
    let whole = before + needle + after;
    assert(whole.subrange(before.len() as int, (before.len() + needle.len()) as int) =~= needle);
    assert(occurs_at(whole, needle, before.len() as int));
}

// ---------------------------------------------------------------------------
// White space
// ---------------------------------------------------------------------------

/// Unicode's `White_Space` property.
pub open spec fn white(c: char) -> bool {
    let n = c as u32;
    ||| 9 <= n <= 13
    ||| n == 32
    ||| n == 0x85
    ||| n == 0xa0
    ||| n == 0x1680
    ||| 0x2000 <= n <= 0x200a
    ||| n == 0x2028
    ||| n == 0x2029
    ||| n == 0x202f
    ||| n == 0x205f
    ||| n == 0x3000
}

/// Whether `c` is white space.
pub fn is_white(c: char) -> (yes: bool)
    ensures
        yes == white(c),
{
    let n: u32 = c as u32;
    (9 <= n && n <= 13) || n == 32 || n == 0x85 || n == 0xa0 || n == 0x1680 || (0x2000 <= n && n
        <= 0x200a) || n == 0x2028 || n == 0x2029 || n == 0x202f || n == 0x205f || n == 0x3000
}

/// `text` without its leading white space.
pub open spec fn trim_start(text: Seq<char>) -> Seq<char>
    decreases text.len(),
{
    if text.len() > 0 && white(text[0]) {
        trim_start(text.skip(1))
    } else {
        text
    }
}

/// `text` without its trailing white space.
pub open spec fn trim_end(text: Seq<char>) -> Seq<char>
    decreases text.len(),
{
    if text.len() > 0 && white(text.last()) {
        trim_end(text.drop_last())
    } else {
        text
    }
}

/// `text` without white space at either end.
pub open spec fn trim(text: Seq<char>) -> Seq<char> {
    trim_end(trim_start(text))
}

/// Where `chars[from..to]` begins once its leading white space is dropped.
pub(crate) fn skip_white(chars: &Vec<char>, from: usize, to: usize) -> (start: usize)
    requires
        from <= to <= chars.len(),
    ensures
        from <= start <= to,
        chars@.subrange(start as int, to as int) == trim_start(
            chars@.subrange(from as int, to as int),
        ),
{
    let mut start: usize = from;
    while start < to && is_white(chars[start])
        invariant
            from <= start <= to <= chars.len(),
            trim_start(chars@.subrange(start as int, to as int)) == trim_start(
                chars@.subrange(from as int, to as int),
            ),
        decreases to - start,
    {
        assert(chars@.subrange(start as int, to as int).skip(1) =~= chars@.subrange(
            start + 1,
            to as int,
        ));
        start = start + 1;
    }
    start
}

/// Where `chars[from..to]` ends once its trailing white space is dropped.
pub(crate) fn drop_white(chars: &Vec<char>, from: usize, to: usize) -> (end: usize)
    requires
        from <= to <= chars.len(),
    ensures
        from <= end <= to,
        chars@.subrange(from as int, end as int) == trim_end(
            chars@.subrange(from as int, to as int),
        ),
{
    let mut end: usize = to;
    while from < end && is_white(chars[end - 1])
        invariant
            from <= end <= to <= chars.len(),
            trim_end(chars@.subrange(from as int, end as int)) == trim_end(
                chars@.subrange(from as int, to as int),
            ),
        decreases end - from,
    {
        assert(chars@.subrange(from as int, end as int).drop_last() =~= chars@.subrange(
            from as int,
            end - 1,
        ));
        end = end - 1;
    }
    end
}

/// `text` without white space at either end.
pub fn trimmed(text: &str) -> (rest: String)
    ensures
        rest@ == trim(text@),
{
    let chars = chars_of(text);
    assert(chars@.subrange(0, chars@.len() as int) =~= text@);
    let start = skip_white(&chars, 0, chars.len());
    let end = drop_white(&chars, start, chars.len());
    cut(&chars, start, end)
}

// ---------------------------------------------------------------------------
// Finding one character
// ---------------------------------------------------------------------------

/// The index of the first `c` in `text`, or its length when there is none.
pub open spec fn find(text: Seq<char>, c: char) -> int
    decreases text.len(),
{
    if text.len() == 0 || text[0] == c {
        0
    } else {
        1 + find(text.skip(1), c)
    }
}

/// What [`find`] means: nothing before the index is `c`, and what stands at
/// the index, if anything, is.
pub proof fn lemma_find(text: Seq<char>, c: char)
    ensures
        0 <= find(text, c) <= text.len(),
        find(text, c) < text.len() ==> text[find(text, c)] == c,
        forall|i: int| 0 <= i < find(text, c) ==> #[trigger] text[i] != c,
        text.contains(c) <==> find(text, c) < text.len(),
    decreases text.len(),
{
    if text.len() == 0 || text[0] == c {
    } else {
        let rest = text.skip(1);
        lemma_find(rest, c);
        assert forall|i: int| 0 <= i < find(text, c) implies #[trigger] text[i] != c by {
            if i > 0 {
                assert(text[i] == rest[i - 1]);
            }
        }
        if text.contains(c) {
            let i = choose|i: int| 0 <= i < text.len() && text[i] == c;
            assert(rest[i - 1] == c);
            assert(rest.contains(c));
        }
    }
}

/// The index of the first `c` in `chars[from..to]`, or `to` without one.
pub(crate) fn seek(chars: &Vec<char>, from: usize, to: usize, c: char) -> (at: usize)
    requires
        from <= to <= chars.len(),
    ensures
        from <= at <= to,
        at - from == find(chars@.subrange(from as int, to as int), c),
        at < to ==> chars@[at as int] == c,
{
    let mut at: usize = from;
    while at < to && chars[at] != c
        invariant
            from <= at <= to <= chars.len(),
            find(chars@.subrange(from as int, to as int), c) == at - from + find(
                chars@.subrange(at as int, to as int),
                c,
            ),
        decreases to - at,
    {
        assert(chars@.subrange(at as int, to as int).skip(1) =~= chars@.subrange(
            at + 1,
            to as int,
        ));
        at = at + 1;
    }
    at
}

// ---------------------------------------------------------------------------
// Numbers
// ---------------------------------------------------------------------------

/// Whether `c` is one of `0` to `9`.
pub open spec fn digit(c: char) -> bool {
    '0' <= c <= '9'
}

/// Whether every character of `text` is a digit.
pub open spec fn all_digits(text: Seq<char>) -> bool {
    forall|i: int| 0 <= i < text.len() ==> digit(#[trigger] text[i])
}

/// The number that a row of digits writes.
pub open spec fn number(text: Seq<char>) -> nat
    decreases text.len(),
{
    if text.len() == 0 {
        0
    } else {
        number(text.drop_last()) * 10 + (text.last() as u32 - '0' as u32) as nat
    }
}

/// A `u64` in decimal: one or more digits, a leading `+` allowed, in range.
pub open spec fn decimal(text: Seq<char>) -> Option<u64> {
    let digits = if text.len() > 0 && text[0] == '+' {
        text.skip(1)
    } else {
        text
    };
    if digits.len() > 0 && all_digits(digits) && number(digits) <= u64::MAX {
        Some(number(digits) as u64)
    } else {
        None
    }
}

proof fn lemma_number_grows(text: Seq<char>, n: int)
    requires
        0 <= n <= text.len(),
        all_digits(text),
    ensures
        number(text.take(n)) <= number(text),
    decreases text.len() - n,
{
    if n == text.len() {
        assert(text.take(n) =~= text);
    } else {
        lemma_number_grows(text, n + 1);
        assert(text.take(n + 1).drop_last() =~= text.take(n));
    }
}

/// Reads `chars[from..to]` as a decimal `u64`.
pub(crate) fn parse_u64(chars: &Vec<char>, from: usize, to: usize) -> (value: Option<u64>)
    requires
        from <= to <= chars.len(),
    ensures
        value == decimal(chars@.subrange(from as int, to as int)),
{
    let ghost whole = chars@.subrange(from as int, to as int);
    let start: usize = if from < to && chars[from] == '+' {
        from + 1
    } else {
        from
    };
    let ghost digits = chars@.subrange(start as int, to as int);
    assert(digits =~= if whole.len() > 0 && whole[0] == '+' {
        whole.skip(1)
    } else {
        whole
    });
    if start == to {
        return None;
    }
    let mut total: u64 = 0;
    let mut i: usize = start;
    assert(digits.take(0) =~= Seq::<char>::empty());
    while i < to
        invariant
            start <= i <= to <= chars.len(),
            digits == chars@.subrange(start as int, to as int),
            whole == chars@.subrange(from as int, to as int),
            start < to,
            from <= start <= from + 1,
            digits == (if whole.len() > 0 && whole[0] == '+' {
                whole.skip(1)
            } else {
                whole
            }),
            total == number(digits.take(i - start)),
            forall|j: int| 0 <= j < i - start ==> digit(#[trigger] digits[j]),
        decreases to - i,
    {
        let c = chars[i];
        assert(c == digits[i - start]);
        if c < '0' || '9' < c {
            assert(!digit(digits[i - start]));
            return None;
        }
        let d: u64 = (c as u32 - '0' as u32) as u64;
        let ghost grown = digits.take(i - start + 1);
        assert(grown.drop_last() =~= digits.take(i - start));
        assert(number(grown) == total * 10 + d);
        if total > (u64::MAX - d) / 10 {
            proof {
                if all_digits(digits) {
                    lemma_number_grows(digits, i - start + 1);
                    assert(total * 10 + d > u64::MAX);
                }
            }
            return None;
        }
        total = total * 10 + d;
        i = i + 1;
    }
    assert(digits.take(to - start) =~= digits);
    Some(total)
}

/// The decimal digits of `n`.
pub open spec fn digits_of(n: nat) -> Seq<char>
    decreases n,
{
    if n < 10 {
        seq![digit_char(n)]
    } else {
        digits_of(n / 10).push(digit_char(n % 10))
    }
}

/// The digit that writes `n`, for `n` below ten.
pub open spec fn digit_char(n: nat) -> char {
    (('0' as u32 + n) as u32) as char
}

fn digit_for(n: u64) -> (c: char)
    requires
        n < 10,
    ensures
        c == digit_char(n as nat),
{
    match n {
        0 => '0',
        1 => '1',
        2 => '2',
        3 => '3',
        4 => '4',
        5 => '5',
        6 => '6',
        7 => '7',
        8 => '8',
        _ => '9',
    }
}

/// Writes `n` in decimal.
pub fn render(n: u64) -> (text: String)
    ensures
        text@ == digits_of(n as nat),
    decreases n,
{
    if n < 10 {
        let mut text = String::new();
        text.push(digit_for(n));
        assert(text@ =~= digits_of(n as nat));
        text
    } else {
        let mut text = render(n / 10);
        text.push(digit_for(n % 10));
        text
    }
}

/// A signed number in decimal, with a leading `-` when it is negative.
pub open spec fn signed_digits(n: int) -> Seq<char> {
    if n < 0 {
        seq!['-'] + digits_of((-n) as nat)
    } else {
        digits_of(n as nat)
    }
}

/// Writes `n` in decimal.
pub fn render_signed(n: i64) -> (text: String)
    ensures
        text@ == signed_digits(n as int),
{
    if n < 0 {
        let size: u64 = if n == i64::MIN {
            9223372036854775808
        } else {
            (-n) as u64
        };
        let mut text = String::new();
        text.push('-');
        let digits = render(size);
        text.append(digits.as_str());
        assert(text@ =~= seq!['-'] + digits@);
        text
    } else {
        render(n as u64)
    }
}

// ---------------------------------------------------------------------------
// Laws
// ---------------------------------------------------------------------------

/// **Trimming takes off white space at both ends, and nothing else.**
pub proof fn trimming_takes_white_space_off(text: Seq<char>) -> (ends: (int, int))
    ensures
        0 <= ends.0 <= ends.1 <= text.len(),
        trim(text) == text.subrange(ends.0, ends.1),
        forall|i: int| 0 <= i < ends.0 ==> white(#[trigger] text[i]),
        forall|i: int| ends.1 <= i < text.len() ==> white(#[trigger] text[i]),
        ends.0 < ends.1 ==> !white(text[ends.0]) && !white(text[ends.1 - 1]),
        trim(text).len() == 0 <==> forall|i: int| 0 <= i < text.len() ==> white(#[trigger] text[i]),
{
    let from = starting_white_space_is_taken_off(text);
    let rest = trim_start(text);
    let to = from + ending_white_space_is_taken_off(rest);
    assert(trim(text) =~= text.subrange(from, to));
    assert forall|i: int| to <= i < text.len() implies white(#[trigger] text[i]) by {
        assert(rest[i - from] == text[i]);
    }
    if from < to {
        assert(rest[0] == text[from]);
        assert(rest[to - from - 1] == text[to - 1]);
    }
    if forall|i: int| 0 <= i < text.len() ==> white(#[trigger] text[i]) {
        if from < to {
            assert(white(text[from]));
        }
    }
    (from, to)
}

/// **Trimming the start takes off white space there, and nothing else.**
pub proof fn starting_white_space_is_taken_off(text: Seq<char>) -> (from: int)
    ensures
        0 <= from <= text.len(),
        trim_start(text) == text.skip(from),
        forall|i: int| 0 <= i < from ==> white(#[trigger] text[i]),
        from < text.len() ==> !white(text[from]),
    decreases text.len(),
{
    if text.len() > 0 && white(text[0]) {
        let rest = text.skip(1);
        let from = starting_white_space_is_taken_off(rest);
        assert(rest.skip(from) =~= text.skip(from + 1));
        assert forall|i: int| 0 <= i < from + 1 implies white(#[trigger] text[i]) by {
            if i > 0 {
                assert(rest[i - 1] == text[i]);
            }
        }
        from + 1
    } else {
        assert(text.skip(0) =~= text);
        0
    }
}

/// **Trimming the end takes off white space there, and nothing else.**
pub proof fn ending_white_space_is_taken_off(text: Seq<char>) -> (to: int)
    ensures
        0 <= to <= text.len(),
        trim_end(text) == text.take(to),
        forall|i: int| to <= i < text.len() ==> white(#[trigger] text[i]),
        to > 0 ==> !white(text[to - 1]),
    decreases text.len(),
{
    if text.len() > 0 && white(text.last()) {
        let rest = text.drop_last();
        let to = ending_white_space_is_taken_off(rest);
        assert(rest.take(to) =~= text.take(to));
        assert forall|i: int| to <= i < text.len() implies white(#[trigger] text[i]) by {
            if i < rest.len() {
                assert(rest[i] == text[i]);
            }
        }
        to
    } else {
        assert(text.take(text.len() as int) =~= text);
        text.len() as int
    }
}

/// **White space is what Unicode calls so.** Below the other planes of it are
/// blanks, tabs and line ends; letters, digits and signs are none.
pub proof fn white_space_is_blank(c: char)
    ensures
        (c as u32) < 128 ==> (white(c) <==> c == ' ' || c == '\t' || c == '\n' || c == '\r' || c
            as u32 == 11 || c as u32 == 12),
        c as u32 >= 128 ==> (white(c) <==> c as u32 == 0x85 || c as u32 == 0xa0 || c as u32
            == 0x1680 || 0x2000 <= c as u32 <= 0x200a || c as u32 == 0x2028 || c as u32 == 0x2029
            || c as u32 == 0x202f || c as u32 == 0x205f || c as u32 == 0x3000),
{
}

/// **A text holds another one exactly where that occurs in it, character for
/// character.**
pub proof fn holding_is_occurring(text: Seq<char>, needle: Seq<char>)
    ensures
        holds(text, needle) <==> exists|at: int|
            0 <= at && at + needle.len() <= text.len() && #[trigger] text.subrange(
                at,
                at + needle.len(),
            ) == needle,
        starts(text, needle) <==> needle.len() <= text.len() && forall|i: int|
            0 <= i < needle.len() ==> #[trigger] text[i] == needle[i],
{
    if holds(text, needle) {
        let at = choose|at: int| #[trigger] occurs_at(text, needle, at);
        assert(text.subrange(at, at + needle.len()) == needle);
    }
    if exists|at: int|
        0 <= at && at + needle.len() <= text.len() && #[trigger] text.subrange(
            at,
            at + needle.len(),
        ) == needle {
        let at = choose|at: int|
            0 <= at && at + needle.len() <= text.len() && #[trigger] text.subrange(
                at,
                at + needle.len(),
            ) == needle;
        assert(occurs_at(text, needle, at));
    }
    if starts(text, needle) {
        assert forall|i: int| 0 <= i < needle.len() implies #[trigger] text[i] == needle[i] by {
            assert(text.take(needle.len() as int)[i] == text[i]);
        }
    }
    if needle.len() <= text.len() && forall|i: int|
        0 <= i < needle.len() ==> #[trigger] text[i] == needle[i] {
        assert(text.take(needle.len() as int) =~= needle);
    }
}

/// A text without white space at its ends is not trimmed.
pub proof fn lemma_trim_nothing(text: Seq<char>)
    requires
        text.len() > 0,
        !white(text[0]),
        !white(text.last()),
    ensures
        trim(text) == text,
{
    assert(trim_start(text) == text);
}

/// The first occurrence is where [`find`] says.
pub proof fn lemma_find_is(text: Seq<char>, c: char, at: int)
    requires
        0 <= at < text.len(),
        text[at] == c,
        forall|i: int| 0 <= i < at ==> #[trigger] text[i] != c,
    ensures
        find(text, c) == at,
{
    lemma_find(text, c);
    let found = find(text, c);
    if found < at {
        assert(text[found] != c);
    } else if at < found {
        assert(text[at] != c);
    }
}

/// Nothing is found where nothing occurs.
pub proof fn lemma_find_none(text: Seq<char>, c: char)
    requires
        forall|i: int| 0 <= i < text.len() ==> #[trigger] text[i] != c,
    ensures
        find(text, c) == text.len(),
{
    lemma_find(text, c);
}

/// **A written number is a row of digits, and reads back as that number.** Its
/// last digit is what is left of ten, and the others are those of the tenth part.
pub proof fn written_numbers_are_read_back(n: nat)
    ensures
        digits_of(n).len() > 0,
        forall|i: int| 0 <= i < digits_of(n).len() ==> '0' <= #[trigger] digits_of(n)[i] <= '9',
        number(digits_of(n)) == n,
        n <= u64::MAX ==> decimal(digits_of(n)) == Some(n as u64),
        n < 10 ==> digits_of(n).len() == 1,
        n >= 10 ==> digits_of(n).drop_last() == digits_of(n / 10),
        digits_of(n).last() as u32 == 48 + n % 10,
        n <= u64::MAX ==> decimal(seq!['+'] + digits_of(n)) == Some(n as u64),
    decreases n,
{
    reveal_with_fuel(number, 2);
    let d = n % 10;
    let c = digit_char(d);
    assert(c as u32 == 48 + d);
    if n < 10 {
        let text = seq![digit_char(n)];
        assert(text.drop_last() =~= Seq::<char>::empty());
        assert(digits_of(n) == text);
    } else {
        let up = digits_of(n / 10);
        written_numbers_are_read_back(n / 10);
        assert(digits_of(n) == up.push(c));
        assert(up.push(c).drop_last() =~= up);
        assert(n == (n / 10) * 10 + d);
        assert forall|i: int| 0 <= i < digits_of(n).len() implies '0' <= #[trigger] digits_of(n)[i]
            <= '9' by {
            if i < up.len() {
                assert(digits_of(n)[i] == up[i]);
            }
        }
    }
    assert(all_digits(digits_of(n)));
    assert(digits_of(n)[0] != '+');
    assert((seq!['+'] + digits_of(n)).skip(1) =~= digits_of(n));
}

/// **What is no number is not read as one**: nothing at all, anything with a
/// character that is no digit behind the first one, and numbers that are too large.
pub proof fn only_digits_are_numbers(text: Seq<char>, i: int)
    ensures
        text.len() == 0 ==> decimal(text) is None,
        0 <= i < text.len() && !('0' <= text[i] <= '9') && (i > 0 || text[i] != '+') ==> decimal(
            text,
        ) is None,
        decimal(text) is Some && text[0] != '+' ==> number(text) == decimal(text)->0,
{
    if text.len() > 0 && text[0] == '+' && i > 0 && i < text.len() {
        assert(text.skip(1)[i - 1] == text[i]);
    }
}

/// **Joined texts stand in a row, with the glue between each two of them.**
pub proof fn joined_texts_stand_in_a_row(parts: Seq<Seq<char>>, next: Seq<char>, glue: Seq<char>)
    ensures
        joined(Seq::empty(), glue) == Seq::<char>::empty(),
        joined(seq![next], glue) == next,
        parts.len() > 0 ==> joined(parts.push(next), glue) == joined(parts, glue) + glue + next,
{
    if parts.len() > 0 {
        assert(parts.push(next).drop_last() =~= parts);
    }
}

/// **A list has a text exactly where one of its texts is that one, whole.**
pub proof fn listed_texts_are_whole(list: Seq<String>, text: Seq<char>)
    ensures
        lists(list, text) <==> views(list).contains(text),
        ends(text, text),
        starts(text, text),
{
    if lists(list, text) {
        let i = choose|i: int| 0 <= i < list.len() && #[trigger] list[i]@ == text;
        assert(views(list)[i] == text);
    }
    if views(list).contains(text) {
        let i = choose|i: int| 0 <= i < views(list).len() && views(list)[i] == text;
        assert(list[i]@ == text);
    }
    assert(text.skip(0) =~= text);
    assert(text.take(text.len() as int) =~= text);
}

/// **A text ends with another one exactly if its last characters are those.**
pub proof fn ending_is_having_the_last_characters(text: Seq<char>, suffix: Seq<char>)
    ensures
        ends(text, suffix) <==> suffix.len() <= text.len() && forall|i: int|
            0 <= i < suffix.len() ==> #[trigger] suffix[i] == text[text.len() - suffix.len() + i],
{
    if ends(text, suffix) {
        assert forall|i: int| 0 <= i < suffix.len() implies #[trigger] suffix[i] == text[text.len()
            - suffix.len() + i] by {
            assert(text.skip(text.len() - suffix.len())[i] == suffix[i]);
        }
    }
    if suffix.len() <= text.len() && forall|i: int|
        0 <= i < suffix.len() ==> #[trigger] suffix[i] == text[text.len() - suffix.len() + i] {
        assert(text.skip(text.len() - suffix.len()) =~= suffix);
    }
}

} // verus!
