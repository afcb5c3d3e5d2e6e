//! Display text: character-cell widths, truncation, clock strings and
//! the ordering of strings.
use std::cmp::Ordering;
use unicode_width::UnicodeWidthChar;
use vstd::prelude::*;

verus! {

/// What `UnicodeWidthChar::width` reports for a character: its width in
/// character cells, or `None` for a control character.
pub uninterp spec fn cell_width_of(c: char) -> Option<usize>;

/// Relies on `unicode_width::UnicodeWidthChar::width`: the width of one
/// character in cells. Its source answers `Some(1)` for printable ASCII and
/// `None` for the C0 and C1 control characters and DEL.
#[verifier::external_body]
fn char_cells(c: char) -> (r: Option<usize>)
    ensures
        r == cell_width_of(c),
        (' ' <= c && c < '\u{7F}') ==> r == Some(1usize),
        (c < ' ' || ('\u{7F}' <= c && c < '\u{A0}')) ==> r is None,
{
    UnicodeWidthChar::width(c)
}

/// Width of one character as the truncation counts it: a control
/// character takes no room.
pub open spec fn cells(c: char) -> int {
    match cell_width_of(c) {
        Some(w) => w as int,
        None => 0,
    }
}

/// The marker appended to a truncated string.
pub open spec fn ellipsis() -> Seq<char> {
    seq!['.', '.', '.']
}

/// `s` cut to fit `budget` cells: characters are kept from the front while
/// they fit; at the first one that does not, the rest is replaced by
/// the ellipsis.
pub open spec fn truncated(s: Seq<char>, budget: int) -> Seq<char>
    decreases s.len(),
{
    if s.len() == 0 {
        s
    } else if cells(s[0]) > budget {
        ellipsis()
    } else {
        seq![s[0]] + truncated(s.drop_first(), budget - cells(s[0]))
    }
}

/// Lexicographic order of two strings by code point, as std orders `str`.
pub open spec fn text_order(a: Seq<char>, b: Seq<char>) -> Ordering
    decreases a.len(),
{
    if a.len() == 0 {
        if b.len() == 0 {
            Ordering::Equal
        } else {
            Ordering::Less
        }
    } else if b.len() == 0 {
        Ordering::Greater
    } else if a[0] < b[0] {
        Ordering::Less
    } else if a[0] > b[0] {
        Ordering::Greater
    } else {
        text_order(a.drop_first(), b.drop_first())
    }
}

/// Relies on `Ord for str`, which std documents as lexicographic order of
/// the bytes, that is of the code points.
#[verifier::external_body]
pub(crate) fn compare_text(a: &str, b: &str) -> (r: Ordering)
    ensures
        r == text_order(a@, b@),
{
    a.cmp(b)
}

/// Swapping the operands turns the order around; only equal strings
/// compare equal.
pub proof fn lemma_text_order_flip(a: Seq<char>, b: Seq<char>)
    ensures
        text_order(a, b) == Ordering::Less <==> text_order(b, a) == Ordering::Greater,
        text_order(a, b) == Ordering::Equal <==> a == b,
    decreases a.len(),
{
    if a.len() > 0 && b.len() > 0 {
        lemma_text_order_flip(a.drop_first(), b.drop_first());
        if a[0] == b[0] {
            if a.drop_first() == b.drop_first() {
                assert(a =~= seq![a[0]] + a.drop_first());
                assert(b =~= seq![b[0]] + b.drop_first());
            }
        }
        if a == b {
            assert(a.drop_first() == b.drop_first());
        }
    } else if a.len() == 0 && b.len() == 0 {
        assert(a =~= b);
    }
}

/// The decimal digit for `d`.
pub open spec fn digit(d: int) -> char {
    seq!['0', '1', '2', '3', '4', '5', '6', '7', '8', '9'][d]
}

/// `n` in decimal, without leading zeros.
pub open spec fn decimal(n: nat) -> Seq<char>
    decreases n,
{
    if n < 10 {
        seq![digit(n as int)]
    } else {
        decimal(n / 10).push(digit((n % 10) as int))
    }
}

/// `n` in decimal, padded to at least two digits.
pub open spec fn two_digits(n: nat) -> Seq<char> {
    if n < 10 {
        seq!['0', digit(n as int)]
    } else {
        decimal(n)
    }
}

/// `secs` as `MM:SS`; the minutes grow past two digits where needed.
pub open spec fn clock_text(secs: nat) -> Seq<char> {
    two_digits(secs / 60) + seq![':'] + two_digits(secs % 60)
}

fn digit_of(d: u64) -> (c: char)
    requires
        d < 10,
    ensures
        c == digit(d as int),
{
    match d {
        0 => '0',
        1 => '1',
        2 => '2',
        3 => '3',
        4 => '4',
        5 => '5',
        6 => '6',
        7 => '7',
        8 => '8',
        _ => '9',
    }
}

fn push_decimal(s: &mut String, n: u64)
    ensures
        final(s)@ == old(s)@ + decimal(n as nat),
    decreases n,
{
    if n >= 10 {
        push_decimal(s, n / 10);
    }
    push_char(s, digit_of(n % 10));
    proof {
        if n < 10 {
            assert(n % 10 == n);
        }
    }
}

fn push_two_digits(s: &mut String, n: u64)
    ensures
        final(s)@ == old(s)@ + two_digits(n as nat),
{
    if n < 10 {
        push_char(s, '0');
    }
    push_decimal(s, n);
}

/// Appends `secs` as `MM:SS`.
pub fn push_clock(s: &mut String, secs: u64)
    ensures
        final(s)@ == old(s)@ + clock_text(secs as nat),
{
    push_two_digits(s, secs / 60);
    push_char(s, ':');
    push_two_digits(s, secs % 60);
}

/// `secs` as `MM:SS`.
pub fn format_clock(secs: u64) -> (r: String)
    ensures
        r@ == clock_text(secs as nat),
{
    let mut r = String::new();
    push_clock(&mut r, secs);
    r
}

/// The order of strings is transitive.
pub proof fn lemma_text_order_transitive(a: Seq<char>, b: Seq<char>, c: Seq<char>)
    requires
        text_order(a, b) == Ordering::Less,
        text_order(b, c) == Ordering::Less,
    ensures
        text_order(a, c) == Ordering::Less,
    decreases a.len(),
{
    if a.len() > 0 && b.len() > 0 && c.len() > 0 && a[0] == b[0] && b[0] == c[0] {
        lemma_text_order_transitive(a.drop_first(), b.drop_first(), c.drop_first());
    }
}

/// Cutting a non-empty string leaves something to show.
pub proof fn lemma_truncated_not_empty(s: Seq<char>, budget: int)
    requires
        s.len() > 0,
    ensures
        truncated(s, budget).len() > 0,
{
}

/// Relies on `String::push`: appends one character.
#[verifier::external_body]
pub(crate) fn push_char(s: &mut String, c: char)
    ensures
        final(s)@ == old(s)@.push(c),
{
    s.push(c)
}

proof fn lemma_truncated_step(s: Seq<char>, i: int, budget: int)
    requires
        0 <= i < s.len(),
    ensures
        truncated(s.skip(i), budget) == (if cells(s[i]) > budget {
            ellipsis()
        } else {
            seq![s[i]] + truncated(s.skip(i + 1), budget - cells(s[i]))
        }),
{
    assert(s.skip(i).drop_first() =~= s.skip(i + 1));
}

/// Cuts `s` to at most `max_width` character cells, marking a cut with a
/// trailing ellipsis.
pub fn truncate_by_width(s: &str, max_width: usize) -> (r: String)
    ensures
        r@ == truncated(s@, max_width as int),
{
    let mut width: usize = 0;
    let mut result = String::new();
    let ghost whole = s@;
    proof {
        assert(whole.skip(0) =~= whole);
        assert(result@ + truncated(whole, max_width as int) =~= truncated(whole, max_width as int));
    }
    for c in it: s.chars()
        invariant
            it.seq() == whole,
            whole == s@,
            width <= max_width,
            result@ == whole.take(it.index() as int),
            truncated(whole, max_width as int) == result@ + truncated(
                whole.skip(it.index() as int),
                max_width - width,
            ),
    {
        let w = match char_cells(c) {
            Some(w) => w,
            None => 0,
        };
        assert(c == whole[it.index() as int]);
        assert(w as int == cells(c));
        proof {
            lemma_truncated_step(whole, it.index() as int, max_width - width);
        }
        if w > max_width - width {
            proof {
                reveal_strlit("...");
                assert("..."@ =~= ellipsis());
            }
            result.append("...");
            return result;
        }
        width = width + w;
        push_char(&mut result, c);
        proof {
            assert(whole.take(it.index() + 1) =~= whole.take(it.index() as int).push(c));
        }
    }
    proof {
        assert(whole.skip(whole.len() as int) =~= Seq::<char>::empty());
        assert(whole.take(whole.len() as int) =~= whole);
    }
    result
}

} // verus!
