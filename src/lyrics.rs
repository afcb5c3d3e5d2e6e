//! Line-timed lyrics taken from a track's embedded lyric text.
//!
//! Each line of the text reads `[mm:ss.cc]words`. A timestamp is up to
//! three `:`-separated fields, read as `[hh:]mm:ss`: the last counts
//! seconds, the one before it minutes, the first of three hours. A field is
//! up to nine digits with an optional fraction, of which hundredths are
//! kept; any other field counts as 0, and so does a timestamp of more than
//! three fields. Lines at time 0 or with no words are dropped; the others
//! are put in time order, lines of equal time in the order of the text.
use crate::text::push_char;
use vstd::prelude::*;

verus! {

/// One lyric line. Times are in hundredths of a second from the start of
/// the track.
#[derive(Debug)]
pub struct LyricLine {
    pub time: u64,
    pub text: String,
    /// Time until the next line; [`LAST_LINE_SPAN`] for the last one.
    pub span: u64,
}

/// Span of the last line, in hundredths of a second: it stays on.
pub const LAST_LINE_SPAN: u64 = 10000;

/// Longest run of digits a timestamp field may hold.
pub const FIELD_DIGITS: usize = 9;

/// The pieces of `s` between separators `sep`, from the piece that began
/// at `start`, `i` being the next character to look at.
pub open spec fn pieces_from(s: Seq<char>, sep: char, start: int, i: int) -> Seq<Seq<char>>
    decreases s.len() - i,
{
    if i >= s.len() || i < start || start < 0 {
        seq![s.subrange(start, s.len() as int)]
    } else if s[i] == sep {
        seq![s.subrange(start, i)] + pieces_from(s, sep, i + 1, i + 1)
    } else {
        pieces_from(s, sep, start, i + 1)
    }
}

/// `s` split at every `sep`; an empty `s` is one empty piece.
pub open spec fn pieces(s: Seq<char>, sep: char) -> Seq<Seq<char>> {
    pieces_from(s, sep, 0, 0)
}

/// Position of the first `c` in `s`.
pub open spec fn first_index(s: Seq<char>, c: char) -> Option<int>
    decreases s.len(),
{
    if s.len() == 0 {
        None
    } else if s[0] == c {
        Some(0)
    } else {
        match first_index(s.drop_first(), c) {
            Some(i) => Some(i + 1),
            None => None,
        }
    }
}

/// `s` without its leading `[`s.
pub open spec fn strip_open(s: Seq<char>) -> Seq<char>
    decreases s.len(),
{
    if s.len() > 0 && s[0] == '[' {
        strip_open(s.drop_first())
    } else {
        s
    }
}

pub open spec fn is_digit(c: char) -> bool {
    '0' <= c && c <= '9'
}

pub open spec fn digit_value(c: char) -> int {
    c as int - '0' as int
}

pub open spec fn all_digits(s: Seq<char>) -> bool {
    forall|i: int| 0 <= i < s.len() ==> is_digit(#[trigger] s[i])
}

/// The number that the digits `s` write.
pub open spec fn digits_value(s: Seq<char>) -> int
    decreases s.len(),
{
    if s.len() == 0 {
        0
    } else {
        digits_value(s.drop_last()) * 10 + digit_value(s.last())
    }
}

/// Hundredths that the fraction digits `f` write; later digits are cut.
pub open spec fn fraction_centis(f: Seq<char>) -> int {
    (if f.len() > 0 {
        10 * digit_value(f[0])
    } else {
        0
    }) + (if f.len() > 1 {
        digit_value(f[1])
    } else {
        0
    })
}

/// Whether `w` is a whole part that a field may have.
pub open spec fn whole_ok(w: Seq<char>) -> bool {
    1 <= w.len() <= FIELD_DIGITS && all_digits(w)
}

/// Hundredths that one timestamp field writes, 0 when it is malformed.
pub open spec fn field_centis(f: Seq<char>) -> int {
    match first_index(f, '.') {
        None => if whole_ok(f) {
            digits_value(f) * 100
        } else {
            0
        },
        Some(p) => if whole_ok(f.take(p)) && all_digits(f.skip(p + 1)) {
            digits_value(f.take(p)) * 100 + fraction_centis(f.skip(p + 1))
        } else {
            0
        },
    }
}

/// The fields read in base sixty, in hundredths of their last unit.
pub open spec fn sexagesimal(fs: Seq<Seq<char>>) -> int
    decreases fs.len(),
{
    if fs.len() == 0 {
        0
    } else {
        60 * sexagesimal(fs.drop_last()) + field_centis(fs.last())
    }
}

/// A timestamp's time in hundredths: `[hh:]mm:ss`, 0 with more than three
/// fields.
pub open spec fn timestamp_centis(ts: Seq<char>) -> int {
    let fs = pieces(ts, ':');
    if fs.len() == 0 || fs.len() > 3 {
        0
    } else {
        sexagesimal(fs)
    }
}

/// Time of a lyric line, 0 when it has no `]`.
pub open spec fn line_time(l: Seq<char>) -> int {
    match first_index(l, ']') {
        Some(p) => timestamp_centis(strip_open(l.take(p))),
        None => 0,
    }
}

/// Words of a lyric line: what follows its first `]`.
pub open spec fn line_words(l: Seq<char>) -> Seq<char> {
    match first_index(l, ']') {
        Some(p) => l.skip(p + 1),
        None => Seq::empty(),
    }
}

/// Where a line at time `t` goes among the time-ordered lines `e`: after
/// every line at or before `t`.
pub open spec fn slot_for(e: Seq<(int, Seq<char>)>, t: int) -> int
    decreases e.len(),
{
    if e.len() == 0 || e[0].0 > t {
        0
    } else {
        1 + slot_for(e.drop_first(), t)
    }
}

/// The (time, words) pairs kept from `lines`, in time order.
pub open spec fn kept_lines(lines: Seq<Seq<char>>) -> Seq<(int, Seq<char>)>
    decreases lines.len(),
{
    if lines.len() == 0 {
        Seq::empty()
    } else {
        let prev = kept_lines(lines.drop_last());
        let t = line_time(lines.last());
        let w = line_words(lines.last());
        if t > 0 && w.len() > 0 {
            prev.insert(slot_for(prev, t), (t, w))
        } else {
            prev
        }
    }
}

/// The span of kept line `k`: up to the next one, or the fixed last span.
pub open spec fn span_at(e: Seq<(int, Seq<char>)>, k: int) -> int {
    if k + 1 < e.len() {
        e[k + 1].0 - e[k].0
    } else {
        LAST_LINE_SPAN as int
    }
}

/// The lyric lines of `text`.
pub open spec fn lyrics_of(text: Seq<char>, r: Seq<LyricLine>) -> bool {
    let e = kept_lines(pieces(text, '\n'));
    &&& r.len() == e.len()
    &&& forall|k: int|
        0 <= k < r.len() ==> {
            &&& (#[trigger] r[k]).time == e[k].0
            &&& r[k].text@ == e[k].1
            &&& r[k].span == span_at(e, k)
        }
}

proof fn lemma_first_index(s: Seq<char>, c: char)
    ensures
        match first_index(s, c) {
            Some(i) => 0 <= i < s.len() && s[i] == c && forall|j: int| 0 <= j < i ==> s[j] != c,
            None => forall|j: int| 0 <= j < s.len() ==> s[j] != c,
        },
    decreases s.len(),
{
    if s.len() > 0 {
        lemma_first_index(s.drop_first(), c);
        assert forall|j: int| 1 <= j < s.len() implies s[j] == s.drop_first()[j - 1] by {}
    }
}

/// Position of the first `c` in `s`.
fn find_first(s: &Vec<char>, c: char) -> (r: Option<usize>)
    ensures
        match r {
            Some(i) => first_index(s@, c) == Some(i as int),
            None => first_index(s@, c) is None,
        },
{
    proof {
        lemma_first_index(s@, c);
    }
    let mut i: usize = 0;
    while i < s.len()
        invariant
            i <= s@.len(),
            forall|j: int| 0 <= j < i ==> s@[j] != c,
            match first_index(s@, c) {
                Some(k) => 0 <= k < s@.len() && s@[k] == c && forall|j: int|
                    0 <= j < k ==> s@[j] != c,
                None => forall|j: int| 0 <= j < s@.len() ==> s@[j] != c,
            },
        decreases s.len() - i,
    {
        if s[i] == c {
            return Some(i);
        }
        i = i + 1;
    }
    None
}

/// The characters of `s` from `lo` to `hi`.
fn slice_chars(s: &Vec<char>, lo: usize, hi: usize) -> (r: Vec<char>)
    requires
        lo <= hi <= s@.len(),
    ensures
        r@ == s@.subrange(lo as int, hi as int),
{
    let mut r: Vec<char> = Vec::new();
    let mut i: usize = lo;
    while i < hi
        invariant
            lo <= i <= hi,
            hi <= s@.len(),
            r@ == s@.subrange(lo as int, i as int),
        decreases hi - i,
    {
        r.push(s[i]);
        i = i + 1;
    }
    r
}

proof fn lemma_pieces_step(s: Seq<char>, sep: char, start: int, i: int)
    requires
        0 <= start <= i < s.len(),
    ensures
        pieces_from(s, sep, start, i) == (if s[i] == sep {
            seq![s.subrange(start, i)] + pieces_from(s, sep, i + 1, i + 1)
        } else {
            pieces_from(s, sep, start, i + 1)
        }),
{
}

/// `s` split at every `sep`.
fn split_on(s: &Vec<char>, sep: char) -> (r: Vec<Vec<char>>)
    ensures
        r@.map_values(|v: Vec<char>| v@) == pieces(s@, sep),
{
    let mut out: Vec<Vec<char>> = Vec::new();
    let mut cur: Vec<char> = Vec::new();
    let ghost mut start: int = 0;
    let mut i: usize = 0;
    while i < s.len()
        invariant
            0 <= start <= i <= s@.len(),
            cur@ == s@.subrange(start, i as int),
            pieces(s@, sep) == out@.map_values(|v: Vec<char>| v@) + pieces_from(
                s@,
                sep,
                start,
                i as int,
            ),
        decreases s.len() - i,
    {
        proof {
            lemma_pieces_step(s@, sep, start, i as int);
        }
        let c = s[i];
        if c == sep {
            let ghost before = out@.map_values(|v: Vec<char>| v@);
            out.push(cur);
            cur = Vec::new();
            proof {
                assert(out@.map_values(|v: Vec<char>| v@) =~= before.push(
                    s@.subrange(start, i as int),
                ));
                assert(before + (seq![s@.subrange(start, i as int)] + pieces_from(
                    s@,
                    sep,
                    i + 1,
                    i + 1,
                )) =~= before.push(s@.subrange(start, i as int)) + pieces_from(
                    s@,
                    sep,
                    i + 1,
                    i + 1,
                ));
                start = i + 1;
            }
        } else {
            cur.push(c);
            proof {
                assert(cur@ =~= s@.subrange(start, i + 1));
            }
        }
        i = i + 1;
    }
    let ghost before = out@.map_values(|v: Vec<char>| v@);
    out.push(cur);
    proof {
        assert(out@.map_values(|v: Vec<char>| v@) =~= before + pieces_from(
            s@,
            sep,
            start,
            i as int,
        ));
    }
    out
}

pub open spec fn pow10(n: nat) -> int
    decreases n,
{
    if n == 0 {
        1
    } else {
        10 * pow10((n - 1) as nat)
    }
}

proof fn lemma_pow10_mono(i: nat, j: nat)
    requires
        i <= j,
    ensures
        1 <= pow10(i) <= pow10(j),
    decreases j,
{
    if i < j {
        lemma_pow10_mono(i, (j - 1) as nat);
    } else {
        lemma_pow10_positive(i);
    }
}

proof fn lemma_pow10_positive(i: nat)
    ensures
        pow10(i) >= 1,
    decreases i,
{
    if i > 0 {
        lemma_pow10_positive((i - 1) as nat);
    }
}

/// The number that the digits `s` write.
fn digits_number(s: &Vec<char>) -> (r: u64)
    requires
        whole_ok(s@),
    ensures
        r == digits_value(s@),
        r < 1_000_000_000,
{
    proof {
        lemma_pow10_mono(s@.len(), FIELD_DIGITS as nat);
        reveal_with_fuel(pow10, 10);
    }
    let mut v: u64 = 0;
    let mut i: usize = 0;
    while i < s.len()
        invariant
            i <= s@.len(),
            whole_ok(s@),
            v == digits_value(s@.take(i as int)),
            v < pow10(i as nat),
            pow10(s@.len()) <= 1_000_000_000,
        decreases s.len() - i,
    {
        proof {
            lemma_pow10_mono(i as nat + 1, s@.len());
            assert(s@.take(i + 1).drop_last() =~= s@.take(i as int));
            assert(is_digit(s@[i as int]));
        }
        let d = (s[i] as u32 - '0' as u32) as u64;
        v = v * 10 + d;
        i = i + 1;
    }
    proof {
        assert(s@.take(s@.len() as int) =~= s@);
    }
    v
}

fn check_digits(s: &Vec<char>) -> (r: bool)
    ensures
        r == all_digits(s@),
{
    let mut i: usize = 0;
    while i < s.len()
        invariant
            i <= s@.len(),
            forall|j: int| 0 <= j < i ==> is_digit(#[trigger] s@[j]),
        decreases s.len() - i,
    {
        if !('0' <= s[i] && s[i] <= '9') {
            return false;
        }
        i = i + 1;
    }
    true
}

fn check_whole(s: &Vec<char>) -> (r: bool)
    ensures
        r == whole_ok(s@),
{
    1 <= s.len() && s.len() <= FIELD_DIGITS && check_digits(s)
}

/// Hundredths that one timestamp field writes, 0 when it is malformed.
fn field_value(f: &Vec<char>) -> (r: u64)
    ensures
        r == field_centis(f@),
        r < 100_000_000_000,
{
    match find_first(f, '.') {
        None => if check_whole(f) {
            digits_number(f) * 100
        } else {
            0
        },
        Some(p) => {
            proof {
                lemma_first_index(f@, '.');
                assert(p < f@.len());
            }
            let n = f.len();
            assert(p < n);
            let whole = slice_chars(f, 0, p);
            let frac = slice_chars(f, p + 1, n);
            proof {
                lemma_first_index(f@, '.');
                assert(whole@ =~= f@.take(p as int));
                assert(frac@ =~= f@.skip(p + 1));
            }
            if check_whole(&whole) && check_digits(&frac) {
                let mut c = digits_number(&whole) * 100;
                if frac.len() > 0 {
                    assert(is_digit(frac@[0]));
                    c = c + 10 * ((frac[0] as u32 - '0' as u32) as u64);
                }
                if frac.len() > 1 {
                    assert(is_digit(frac@[1]));
                    c = c + ((frac[1] as u32 - '0' as u32) as u64);
                }
                c
            } else {
                0
            }
        },
    }
}

/// The timestamp's time in hundredths.
fn timestamp_value(ts: &Vec<char>) -> (r: u64)
    ensures
        r == timestamp_centis(strip_open(ts@)),
{
    let mut lo: usize = 0;
    proof {
        assert(ts@.skip(0) =~= ts@);
    }
    while lo < ts.len() && ts[lo] == '['
        invariant
            lo <= ts@.len(),
            strip_open(ts@) == strip_open(ts@.skip(lo as int)),
        decreases ts.len() - lo,
    {
        proof {
            assert(ts@.skip(lo as int).drop_first() =~= ts@.skip(lo + 1));
        }
        lo = lo + 1;
    }
    let body = slice_chars(ts, lo, ts.len());
    proof {
        assert(body@ =~= ts@.skip(lo as int));
        if lo < ts@.len() {
            assert(body@[0] == ts@[lo as int]);
        }
        assert(strip_open(body@) == body@);
    }
    let fields = split_on(&body, ':');
    let ghost fs = fields@.map_values(|v: Vec<char>| v@);
    let n = fields.len();
    if n == 0 || n > 3 {
        return 0;
    }
    let mut acc: u64 = 0;
    let mut i: usize = 0;
    while i < n
        invariant
            1 <= n <= 3,
            n == fields@.len(),
            fs == fields@.map_values(|v: Vec<char>| v@),
            i <= n,
            acc == sexagesimal(fs.take(i as int)),
            acc < (if i == 0 {
                1int
            } else if i == 1 {
                100_000_000_000int
            } else if i == 2 {
                6_100_000_000_000int
            } else {
                366_100_000_000_000int
            }),
        decreases n - i,
    {
        proof {
            assert(fs.take(i + 1).drop_last() =~= fs.take(i as int));
            assert(fs.take(i + 1).last() == fields@[i as int]@);
        }
        acc = acc * 60 + field_value(&fields[i]);
        i = i + 1;
    }
    proof {
        assert(fs.take(n as int) =~= fs);
    }
    acc
}

/// Time and words of one lyric line.
fn parse_line(l: &Vec<char>) -> (r: (u64, Vec<char>))
    ensures
        r.0 == line_time(l@),
        r.1@ == line_words(l@),
{
    match find_first(l, ']') {
        Some(p) => {
            proof {
                lemma_first_index(l@, ']');
                assert(p < l@.len());
            }
            let n = l.len();
            assert(p < n);
            let ts = slice_chars(l, 0, p);
            let words = slice_chars(l, p + 1, n);
            proof {
                assert(ts@ =~= l@.take(p as int));
                assert(words@ =~= l@.skip(p + 1));
            }
            (timestamp_value(&ts), words)
        },
        None => (0, Vec::new()),
    }
}

proof fn lemma_slot_for(e: Seq<(int, Seq<char>)>, t: int)
    ensures
        0 <= slot_for(e, t) <= e.len(),
        forall|j: int| 0 <= j < slot_for(e, t) ==> (#[trigger] e[j]).0 <= t,
        slot_for(e, t) < e.len() ==> e[slot_for(e, t)].0 > t,
    decreases e.len(),
{
    if e.len() > 0 && e[0].0 <= t {
        lemma_slot_for(e.drop_first(), t);
        assert forall|j: int| 1 <= j < e.len() implies e[j] == e.drop_first()[j - 1] by {}
    }
}

/// In time-ordered `e`, the first position whose time is past `t` is
/// [`slot_for`]`(e, t)`.
proof fn lemma_slot_at(e: Seq<(int, Seq<char>)>, t: int, k: int)
    requires
        0 <= k <= e.len(),
        forall|j: int| 0 <= j < k ==> (#[trigger] e[j]).0 <= t,
        k < e.len() ==> e[k].0 > t,
    ensures
        slot_for(e, t) == k,
    decreases k,
{
    if k > 0 {
        assert forall|j: int| 0 <= j < k - 1 implies (#[trigger] e.drop_first()[j]).0 <= t by {
            assert(e.drop_first()[j] == e[j + 1]);
        }
        if k < e.len() {
            assert(e.drop_first()[k - 1] == e[k]);
        }
        lemma_slot_at(e.drop_first(), t, k - 1);
    }
}

/// Kept lines are in time order and after time 0.
proof fn lemma_kept_ordered(lines: Seq<Seq<char>>)
    ensures
        forall|k: int|
            0 <= k < kept_lines(lines).len() ==> (#[trigger] kept_lines(lines)[k]).0 > 0,
        forall|k: int|
            0 <= k < kept_lines(lines).len() - 1 ==> #[trigger] kept_lines(lines)[k].0
                <= kept_lines(lines)[k + 1].0,
    decreases lines.len(),
{
    if lines.len() > 0 {
        let prev = kept_lines(lines.drop_last());
        lemma_kept_ordered(lines.drop_last());
        let t = line_time(lines.last());
        let w = line_words(lines.last());
        if t > 0 && w.len() > 0 {
            let s = slot_for(prev, t);
            lemma_slot_for(prev, t);
            let cur = prev.insert(s, (t, w));
            assert(cur == kept_lines(lines));
            assert forall|j: int| 0 <= j < cur.len() implies cur[j] == (if j < s {
                prev[j]
            } else if j == s {
                (t, w)
            } else {
                prev[j - 1]
            }) by {}
            assert forall|k: int| 0 <= k < cur.len() implies (#[trigger] cur[k]).0 > 0 by {}
            assert forall|k: int| 0 <= k < cur.len() - 1 implies #[trigger] cur[k].0 <= cur[k
                + 1].0 by {
                if k + 1 < s {
                    assert(prev[k].0 <= prev[k + 1].0);
                } else if k + 1 == s {
                    assert(prev[k].0 <= t);
                } else if k == s {
                    assert(prev[k].0 > t);
                } else {
                    assert(prev[k - 1].0 <= prev[k].0);
                }
            }
        }
    }
}

fn string_of(cs: &Vec<char>) -> (r: String)
    ensures
        r@ == cs@,
{
    let mut r = String::new();
    let mut i: usize = 0;
    while i < cs.len()
        invariant
            i <= cs@.len(),
            r@ == cs@.take(i as int),
        decreases cs.len() - i,
    {
        push_char(&mut r, cs[i]);
        proof {
            assert(cs@.take(i + 1) =~= cs@.take(i as int).push(cs@[i as int]));
        }
        i = i + 1;
    }
    proof {
        assert(cs@.take(cs@.len() as int) =~= cs@);
    }
    r
}

/// Parses embedded lyric text into timed lines, in time order; each line's
/// span reaches to the next line, and the last one's is
/// [`LAST_LINE_SPAN`]. Text with no usable line gives none.
pub fn parse_lyrics(text: &str) -> (r: Vec<LyricLine>)
    ensures
        lyrics_of(text@, r@),
{
    let mut cs: Vec<char> = Vec::new();
    for c in it: text.chars()
        invariant
            it.seq() == text@,
            cs@ == text@.take(it.index() as int),
    {
        cs.push(c);
        proof {
            assert(text@.take(it.index() + 1) =~= text@.take(it.index() as int).push(c));
        }
    }
    proof {
        assert(cs@ =~= text@);
    }
    let lines = split_on(&cs, '\n');
    let ghost ls = lines@.map_values(|v: Vec<char>| v@);
    let mut times: Vec<u64> = Vec::new();
    let mut words: Vec<Vec<char>> = Vec::new();
    let mut i: usize = 0;
    while i < lines.len()
        invariant
            i <= lines@.len(),
            ls == lines@.map_values(|v: Vec<char>| v@),
            times@.len() == words@.len(),
            times@.len() == kept_lines(ls.take(i as int)).len(),
            forall|k: int|
                0 <= k < times@.len() ==> #[trigger] times@[k] == kept_lines(ls.take(i as int))[k].0,
            forall|k: int|
                0 <= k < words@.len() ==> (#[trigger] words@[k])@ == kept_lines(ls.take(i as int))[k].1,
            forall|k: int|
                0 <= k < times@.len() - 1 ==> #[trigger] times@[k] <= times@[k + 1],
        decreases lines.len() - i,
    {
        proof {
            assert(ls.take(i + 1).drop_last() =~= ls.take(i as int));
            assert(ls.take(i + 1).last() == lines@[i as int]@);
        }
        let (t, w) = parse_line(&lines[i]);
        let n = times.len();
        let ghost prev = kept_lines(ls.take(i as int));
        let ghost next = kept_lines(ls.take(i + 1));
        proof {
            lemma_kept_ordered(ls.take(i + 1));
        }
        if t > 0 && w.len() > 0 {
            let mut k: usize = 0;
            while k < n && times[k] <= t
                invariant
                    k <= n,
                    n == times@.len(),
                    forall|j: int| 0 <= j < k ==> #[trigger] times@[j] <= t,
                decreases n - k,
            {
                k = k + 1;
            }
            proof {
                assert forall|j: int| 0 <= j < k implies (#[trigger] prev[j]).0 <= t by {
                    assert(times@[j] == prev[j].0);
                }
                if k < n {
                    assert(times@[k as int] == prev[k as int].0);
                }
                lemma_slot_at(prev, t as int, k as int);
                assert(next == prev.insert(k as int, (t as int, w@)));
            }
            let ghost old_words = words@;
            times.insert(k, t);
            words.insert(k, w);
            proof {
                assert forall|j: int| 0 <= j < times@.len() implies #[trigger] times@[j]
                    == next[j].0 && words@[j]@ == next[j].1 by {
                    if j < k {
                        assert(old_words[j] == words@[j]);
                    } else if j > k {
                        assert(old_words[j - 1] == words@[j]);
                    }
                }
            }
        } else {
            proof {
                assert(next == prev);
            }
        }
        i = i + 1;
    }
    proof {
        assert(ls.take(lines@.len() as int) =~= ls);
        lemma_kept_ordered(ls);
    }
    let ghost e = kept_lines(ls);
    let n = times.len();
    let mut out: Vec<LyricLine> = Vec::new();
    let mut k: usize = 0;
    while k < n
        invariant
            n == times@.len(),
            n == words@.len(),
            e.len() == n,
            k <= n,
            forall|j: int| 0 <= j < n ==> #[trigger] times@[j] == e[j].0,
            forall|j: int| 0 <= j < n ==> (#[trigger] words@[j])@ == e[j].1,
            forall|j: int| 0 <= j < n - 1 ==> #[trigger] e[j].0 <= e[j + 1].0,
            out@.len() == k,
            forall|j: int|
                0 <= j < k ==> {
                    &&& (#[trigger] out@[j]).time == e[j].0
                    &&& out@[j].text@ == e[j].1
                    &&& out@[j].span == span_at(e, j)
                },
        decreases n - k,
    {
        let span = if k + 1 < n {
            assert(e[k as int].0 <= e[k + 1].0);
            assert(times@[k as int] == e[k as int].0);
            assert(times@[k + 1] == e[k + 1].0);
            times[k + 1] - times[k]
        } else {
            LAST_LINE_SPAN
        };
        out.push(LyricLine { time: times[k], text: string_of(&words[k]), span });
        k = k + 1;
    }
    out
}

} // verus!
