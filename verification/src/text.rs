//! Texts: the few operations of `String` that the browser needs, numbers in
//! decimal notation, and the search for one text inside another.

use vstd::prelude::*;
use vstd::std_specs::iter::IteratorSpec;
use vstd::string::StrSliceExecFns;
use vstd::string::StringExecFns;

verus! {

/// The lower-case form of a text, as `str::to_lowercase` gives it.
pub uninterp spec fn lowercase(text: Seq<char>) -> Seq<char>;

/// Whether `needle` occurs in `hay` as a run of consecutive characters.
pub open spec fn occurs_in(needle: Seq<char>, hay: Seq<char>) -> bool {
    exists|i: int|
        0 <= i && i + needle.len() <= hay.len() && #[trigger] hay.subrange(
            i,
            i + needle.len(),
        ) == needle
}

/// The first `n` characters of a text, or all of it where it is shorter.
pub open spec fn first_chars(text: Seq<char>, n: nat) -> Seq<char> {
    if text.len() <= n {
        text
    } else {
        text.take(n as int)
    }
}

/// The last `n` characters of a text, or all of it where it is shorter.
pub open spec fn last_chars(text: Seq<char>, n: nat) -> Seq<char> {
    if text.len() <= n {
        text
    } else {
        text.skip(text.len() - n)
    }
}

/// The character that stands for the digit `d`.
pub open spec fn digit(d: nat) -> char {
    if d == 0 {
        '0'
    } else if d == 1 {
        '1'
    } else if d == 2 {
        '2'
    } else if d == 3 {
        '3'
    } else if d == 4 {
        '4'
    } else if d == 5 {
        '5'
    } else if d == 6 {
        '6'
    } else if d == 7 {
        '7'
    } else if d == 8 {
        '8'
    } else {
        '9'
    }
}

/// A number in decimal notation, without leading zeros.
pub open spec fn decimal(n: nat) -> Seq<char>
    decreases n,
{
    if n < 10 {
        seq![digit(n)]
    } else {
        decimal(n / 10).push(digit(n % 10))
    }
}

/// The position of the first line feed of a text, or its length where it
/// has none.
pub open spec fn first_newline(text: Seq<char>) -> int
    decreases text.len(),
{
    if text.len() == 0 || text[0] == '\n' {
        0
    } else {
        1 + first_newline(text.skip(1))
    }
}

/// A line without the carriage return at its end, if it has one.
pub open spec fn without_return(line: Seq<char>) -> Seq<char> {
    if line.len() > 0 && line.last() == '\r' {
        line.drop_last()
    } else {
        line
    }
}

/// The lines of a text. A line ends with a line feed, or with a carriage
/// return and a line feed; neither belongs to the line. What follows the
/// last line feed is a line too, unless it is empty.
pub open spec fn lines_of(text: Seq<char>) -> Seq<Seq<char>>
    decreases text.len(),
{
    if text.len() == 0 {
        Seq::empty()
    } else {
        let end = first_newline(text);
        if 0 <= end < text.len() {
            seq![without_return(text.take(end))] + lines_of(text.skip(end + 1))
        } else {
            seq![text]
        }
    }
}

/// The views of texts.
pub open spec fn views(texts: Seq<String>) -> Seq<Seq<char>> {
    texts.map_values(|t: String| t@)
}

/// Where the first line feed of a text stands: behind `k` characters that
/// are none, or nowhere where no character is one.
pub proof fn lemma_first_newline(text: Seq<char>, k: int)
    requires
        0 <= k <= text.len(),
        forall|i: int| 0 <= i < k ==> text[i] != '\n',
        k < text.len() ==> text[k] == '\n',
    ensures
        first_newline(text) == k,
    decreases k,
{
    if k > 0 {
        let rest = text.skip(1);
        lemma_first_newline(rest, k - 1);
    }
}

/// Different numbers have different decimal notations.
pub proof fn lemma_decimal_is_one_to_one(a: nat, b: nat)
    requires
        decimal(a) == decimal(b),
    ensures
        a == b,
    decreases a,
{
    lemma_decimal_is_not_empty(a / 10);
    lemma_decimal_is_not_empty(b / 10);
    if a < 10 && b < 10 {
        assert(decimal(a)[0] == digit(a));
        assert(decimal(b)[0] == digit(b));
    } else if a >= 10 && b >= 10 {
        assert(decimal(a).drop_last() =~= decimal(a / 10));
        assert(decimal(b).drop_last() =~= decimal(b / 10));
        assert(decimal(a).last() == digit(a % 10));
        assert(decimal(b).last() == digit(b % 10));
        lemma_decimal_is_one_to_one(a / 10, b / 10);
    } else if a < 10 {
        assert(decimal(a).len() == 1);
        assert(decimal(b).len() == decimal(b / 10).len() + 1);
    } else {
        assert(decimal(b).len() == 1);
        assert(decimal(a).len() == decimal(a / 10).len() + 1);
    }
}

/// A decimal notation has at least one digit.
pub proof fn lemma_decimal_is_not_empty(n: nat)
    ensures
        decimal(n).len() >= 1,
    decreases n,
{
    if n >= 10 {
        lemma_decimal_is_not_empty(n / 10);
    }
}

/// Records with different numbers get different identifiers.
pub proof fn lemma_default_uuids_differ(a: nat, b: nat)
    requires
        a != b,
    ensures
        "generated-uuid-"@ + decimal(a) != "generated-uuid-"@ + decimal(b),
{
    let prefix = "generated-uuid-"@;
    if prefix + decimal(a) == prefix + decimal(b) {
        assert((prefix + decimal(a)).skip(prefix.len() as int) =~= decimal(a));
        assert((prefix + decimal(b)).skip(prefix.len() as int) =~= decimal(b));
        lemma_decimal_is_one_to_one(a, b);
    }
}

/// `String::push`: appends one character.
#[verifier::external_body]
pub(crate) fn push_char(text: &mut String, c: char)
    ensures
        final(text)@ == old(text)@.push(c),
{
    text.push(c);
}

/// `String::pop`: removes the last character, if there is one, and returns
/// it.
#[verifier::external_body]
pub(crate) fn pop_char(text: &mut String) -> (last: Option<char>)
    ensures
        old(text)@.len() == 0 ==> last is None && final(text)@ == old(text)@,
        old(text)@.len() > 0 ==> last == Some(old(text)@.last()) && final(text)@ == old(
            text,
        )@.drop_last(),
{
    text.pop()
}

/// `str::to_lowercase`: the lower-case form of a text.
#[verifier::external_body]
pub(crate) fn to_lowercase(text: &str) -> (lower: String)
    ensures
        lower@ == lowercase(text@),
{
    text.to_lowercase()
}

/// `str::contains` with a text as the pattern: whether the pattern occurs in
/// the text.
#[verifier::external_body]
pub(crate) fn contains_text(hay: &str, needle: &str) -> (found: bool)
    ensures
        found == occurs_in(needle@, hay@),
{
    hay.contains(needle)
}

/// The first `n` characters of a text, or all of it where it is shorter.
pub fn take_chars(text: &str, n: usize) -> (head: String)
    ensures
        head@ == first_chars(text@, n as nat),
{
    let len = text.unicode_len();
    if len <= n {
        String::from_str(text)
    } else {
        let head = text.substring_char(0, n);
        String::from_str(head)
    }
}

/// The characters of a text.
pub fn chars_of(text: &str) -> (chars: Vec<char>)
    ensures
        chars@ == text@,
{
    broadcast use vstd::string::group_string_axioms;

    let mut chars: Vec<char> = Vec::new();
    let mut rest = text.chars();
    loop
        invariant_except_break
            chars@ + rest.remaining() == text@,
            rest.decrease() is Some,
        ensures
            chars@ == text@,
        decreases rest.decrease()->0,
    {
        match rest.next() {
            Some(c) => {
                chars.push(c);
            },
            None => {
                break ;
            },
        }
    }
    chars
}

/// The characters of `chars` from `from` up to `to` as a text.
fn text_between(chars: &Vec<char>, from: usize, to: usize) -> (text: String)
    requires
        from <= to <= chars@.len(),
    ensures
        text@ == chars@.subrange(from as int, to as int),
{
    let mut text = String::new();
    let mut i: usize = from;
    while i < to
        invariant
            from <= i <= to,
            to <= chars@.len(),
            text@ == chars@.subrange(from as int, i as int),
        decreases to - i,
    {
        push_char(&mut text, chars[i]);
        i += 1;
    }
    text
}

/// The lines of a text, each without its line ending.
pub fn split_lines(text: &str) -> (lines: Vec<String>)
    ensures
        views(lines@) == lines_of(text@),
{
    let chars = chars_of(text);
    let mut lines: Vec<String> = Vec::new();
    let mut start: usize = 0;
    let mut i: usize = 0;
    assert(chars@.skip(0) =~= chars@);
    while i < chars.len()
        invariant
            start <= i <= chars@.len(),
            forall|j: int| start <= j < i ==> chars@[j] != '\n',
            views(lines@) + lines_of(chars@.skip(start as int)) == lines_of(chars@),
        decreases chars@.len() - i,
    {
        if chars[i] == '\n' {
            let ghost rest = chars@.skip(start as int);
            proof {
                lemma_first_newline(rest, i - start);
                assert(rest.take(i - start) =~= chars@.subrange(start as int, i as int));
                assert(rest.skip(i - start + 1) =~= chars@.skip(i + 1));
            }
            let end = if i > start && chars[i - 1] == '\r' {
                i - 1
            } else {
                i
            };
            let line = text_between(&chars, start, end);
            proof {
                let whole = chars@.subrange(start as int, i as int);
                if i > start && chars@[i - 1] == '\r' {
                    assert(whole.drop_last() =~= chars@.subrange(start as int, i - 1));
                }
            }
            lines.push(line);
            start = i + 1;
        }
        i += 1;
    }
    if start < chars.len() {
        let ghost rest = chars@.skip(start as int);
        proof {
            lemma_first_newline(rest, rest.len() as int);
        }
        let line = text_between(&chars, start, chars.len());
        lines.push(line);
    }
    lines
}

/// The character that stands for the digit `d`.
fn digit_char(d: u64) -> (c: char)
    requires
        d < 10,
    ensures
        c == digit(d as nat),
{
    if d == 0 {
        '0'
    } else if d == 1 {
        '1'
    } else if d == 2 {
        '2'
    } else if d == 3 {
        '3'
    } else if d == 4 {
        '4'
    } else if d == 5 {
        '5'
    } else if d == 6 {
        '6'
    } else if d == 7 {
        '7'
    } else if d == 8 {
        '8'
    } else {
        '9'
    }
}

/// A number in decimal notation, without leading zeros.
pub fn decimal_string(n: u64) -> (text: String)
    ensures
        text@ == decimal(n as nat),
{
    let mut reversed: Vec<char> = Vec::new();
    let mut rest: u64 = n;
    while rest >= 10
        invariant
            decimal(n as nat) == decimal(rest as nat) + reversed@.reverse(),
        decreases rest,
    {
        reversed.push(digit_char(rest % 10));
        rest = rest / 10;
    }
    let mut text = String::new();
    push_char(&mut text, digit_char(rest));
    let mut left: usize = reversed.len();
    while left > 0
        invariant
            left <= reversed@.len(),
            text@ == decimal(rest as nat) + reversed@.reverse().take(reversed@.len() - left),
        decreases left,
    {
        left -= 1;
        push_char(&mut text, reversed[left]);
    }
    text
}

/// An identifier for a record that came without one: `generated-uuid-` and
/// the number of the record in decimal notation.
pub fn default_uuid(counter: u64) -> (id: String)
    ensures
        id@ == "generated-uuid-"@ + decimal(counter as nat),
{
    let mut id = String::from_str("generated-uuid-");
    let number = decimal_string(counter);
    id.append(number.as_str());
    id
}

} // verus!
