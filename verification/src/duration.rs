//! Human-readable durations such as `5m` or `2h15m`, read with the
//! `fancy-duration` crate.

use crate::text::{digits_value, is_digit};
use crate::time::{duration_in_range, Duration, MAX_DURATION_NANOS, NANOS_PER_SEC};
use vstd::prelude::*;

verus! {

/// Whether `c` is an ASCII letter.
pub open spec fn is_ascii_letter(c: char) -> bool {
    ('a' <= c && c <= 'z') || ('A' <= c && c <= 'Z')
}

/// The index where the run of digits of `s` that starts at `i` ends.
pub open spec fn digits_end(s: Seq<char>, i: int) -> int
    decreases s.len() - i,
{
    if 0 <= i < s.len() && is_digit(s[i]) {
        digits_end(s, i + 1)
    } else {
        i
    }
}

/// A run of digits ends within `s`, after its start, and holds digits only.
pub proof fn lemma_digits_end(s: Seq<char>, i: int)
    requires
        0 <= i <= s.len(),
    ensures
        i <= digits_end(s, i) <= s.len(),
        forall|k: int| i <= k < digits_end(s, i) ==> is_digit(#[trigger] s[k]),
        digits_end(s, i) < s.len() ==> !is_digit(s[digits_end(s, i)]),
    decreases s.len() - i,
{
    if i < s.len() && is_digit(s[i]) {
        lemma_digits_end(s, i + 1);
    }
}

/// The index after the one or two letters that follow index `j`, as many
/// as there are.
pub open spec fn letters_end(s: Seq<char>, j: int) -> int {
    if 0 <= j < s.len() && is_ascii_letter(s[j]) {
        if j + 1 < s.len() && is_ascii_letter(s[j + 1]) {
            j + 2
        } else {
            j + 1
        }
    } else {
        j
    }
}

/// The amounts that `fancy-duration`'s reader picks out of `s` from index
/// `i` on: each run of digits followed by one or two ASCII letters, as the
/// run's value and the letters.
pub open spec fn fancy_tokens(s: Seq<char>, i: int) -> Seq<(int, Seq<char>)>
    decreases s.len() - i,
{
    if i < 0 || i >= s.len() {
        Seq::empty()
    } else if !is_digit(s[i]) {
        fancy_tokens(s, i + 1)
    } else {
        let j = digits_end(s, i);
        proof {
            lemma_digits_end(s, i);
            assert(digits_end(s, i) == digits_end(s, i + 1));
            lemma_digits_end(s, i + 1);
        }
        let k = letters_end(s, j);
        if k == j {
            fancy_tokens(s, j)
        } else {
            seq![(digits_value(s.subrange(i, j)), s.subrange(j, k))] + fancy_tokens(s, k)
        }
    }
}

/// The unit the letters `u` name: 1 to 3 for nano-, micro- and
/// milliseconds, 4 to 9 for seconds, minutes (or months), hours, days,
/// weeks and years, 0 for none.
pub open spec fn unit_code(u: Seq<char>) -> int {
    if u == seq!['n', 's'] {
        1
    } else if u == seq!['u', 's'] {
        2
    } else if u == seq!['m', 's'] {
        3
    } else if u == seq!['s'] {
        4
    } else if u == seq!['m'] {
        5
    } else if u == seq!['h'] {
        6
    } else if u == seq!['d'] {
        7
    } else if u == seq!['w'] {
        8
    } else if u == seq!['y'] {
        9
    } else {
        0
    }
}

/// What one amount of the unit `code` counts for: nanoseconds below 3,
/// seconds from 4 on; `m` counts a month of 30 days once a larger unit
/// (`past`) has been read to its right, otherwise a minute; a year counts
/// 360 days.
pub open spec fn unit_scale(code: int, past: bool) -> int {
    if code == 1 {
        1
    } else if code == 2 {
        1000
    } else if code == 3 {
        1_000_000
    } else if code == 4 {
        1
    } else if code == 5 {
        if past {
            2_592_000
        } else {
            60
        }
    } else if code == 6 {
        3600
    } else if code == 7 {
        86400
    } else if code == 8 {
        604800
    } else if code == 9 {
        31_104_000
    } else {
        0
    }
}

/// The seconds and the nanoseconds below them that the reader adds up for
/// the amounts `toks`, read from the right, and whether a unit of minutes
/// or larger was read.
pub open spec fn fancy_sums(toks: Seq<(int, Seq<char>)>) -> (int, int, bool)
    decreases toks.len(),
{
    if toks.len() == 0 {
        (0, 0, false)
    } else {
        let rest = fancy_sums(toks.drop_first());
        let code = unit_code(toks[0].1);
        let amount = toks[0].0 * unit_scale(code, rest.2);
        if code == 0 {
            rest
        } else if code <= 3 {
            (rest.0, rest.1 + amount, rest.2)
        } else {
            (rest.0 + amount, rest.1, rest.2 || code >= 5)
        }
    }
}

/// Whether reading `s` as a duration stays within the reader's integer
/// range: the seconds and nanoseconds it adds up fit an unsigned 64-bit
/// integer, and together a `chrono` duration.
pub open spec fn duration_text_bounded(s: Seq<char>) -> bool {
    let sums = fancy_sums(fancy_tokens(s, 0));
    &&& sums.0 * NANOS_PER_SEC + sums.1 <= MAX_DURATION_NANOS
    &&& sums.1 <= u64::MAX
}

/// A value large enough that any amount of it with a unit overflows.
spec fn huge() -> int {
    100_000_000_000_000_000_000_000_000int
}

/// Whether `t` holds what the reader's amount `g` has: its unit, and its
/// value where the value is below `huge()` (none where it is not).
spec fn token_held(t: (Option<u128>, u8), g: (int, Seq<char>)) -> bool {
    &&& t.1 as int == unit_code(g.1)
    &&& g.0 >= 0
    &&& match t.0 {
        Some(v) => v as int == g.0 && g.0 < huge(),
        None => g.0 >= huge(),
    }
}

/// Adding the amounts further left only adds to the sums.
proof fn lemma_sums_grow(toks: Seq<(int, Seq<char>)>, k: int)
    requires
        0 <= k <= toks.len(),
        forall|i: int| 0 <= i < toks.len() ==> (#[trigger] toks[i]).0 >= 0,
    ensures
        fancy_sums(toks).0 >= fancy_sums(toks.subrange(k, toks.len() as int)).0,
        fancy_sums(toks).1 >= fancy_sums(toks.subrange(k, toks.len() as int)).1,
    decreases k,
{
    if k > 0 {
        let t = toks.subrange(k - 1, toks.len() as int);
        assert(t.drop_first() =~= toks.subrange(k, toks.len() as int));
        assert(t[0] == toks[k - 1]);
        let rest = fancy_sums(t.drop_first());
        let code = unit_code(t[0].1);
        assert(unit_scale(code, rest.2) >= 0);
        assert(t[0].0 * unit_scale(code, rest.2) >= 0) by (nonlinear_arith)
            requires
                t[0].0 >= 0,
                unit_scale(code, rest.2) >= 0,
        ;
        lemma_sums_grow(toks, k - 1);
        assert(toks.subrange(k - 1, toks.len() as int) == t);
    } else {
        assert(toks.subrange(0, toks.len() as int) =~= toks);
    }
}

/// The unit code of the letters `u` (see `unit_code`).
fn unit_code_exec(u: &[char]) -> (res: u8)
    ensures
        res as int == unit_code(u@),
{
    if u.len() == 2 && u[0] == 'n' && u[1] == 's' {
        assert(u@ =~= seq!['n', 's']);
        1
    } else if u.len() == 2 && u[0] == 'u' && u[1] == 's' {
        assert(u@ =~= seq!['u', 's']);
        2
    } else if u.len() == 2 && u[0] == 'm' && u[1] == 's' {
        assert(u@ =~= seq!['m', 's']);
        3
    } else if u.len() == 1 && u[0] == 's' {
        assert(u@ =~= seq!['s']);
        4
    } else if u.len() == 1 && u[0] == 'm' {
        assert(u@ =~= seq!['m']);
        5
    } else if u.len() == 1 && u[0] == 'h' {
        assert(u@ =~= seq!['h']);
        6
    } else if u.len() == 1 && u[0] == 'd' {
        assert(u@ =~= seq!['d']);
        7
    } else if u.len() == 1 && u[0] == 'w' {
        assert(u@ =~= seq!['w']);
        8
    } else if u.len() == 1 && u[0] == 'y' {
        assert(u@ =~= seq!['y']);
        9
    } else {
        assert(unit_code(u@) == 0) by {
            if u.len() == 2 {
                assert(u@ != seq!['n', 's'] && u@ != seq!['u', 's'] && u@ != seq!['m', 's']) by {
                    if u@ == seq!['n', 's'] { assert(u@[0] == 'n' && u@[1] == 's'); }
                    if u@ == seq!['u', 's'] { assert(u@[0] == 'u' && u@[1] == 's'); }
                    if u@ == seq!['m', 's'] { assert(u@[0] == 'm' && u@[1] == 's'); }
                }
            } else if u.len() == 1 {
                assert(u@ != seq!['s'] && u@ != seq!['m'] && u@ != seq!['h'] && u@ != seq!['d']
                    && u@ != seq!['w'] && u@ != seq!['y']) by {
                    if u@ == seq!['s'] { assert(u@[0] == 's'); }
                    if u@ == seq!['m'] { assert(u@[0] == 'm'); }
                    if u@ == seq!['h'] { assert(u@[0] == 'h'); }
                    if u@ == seq!['d'] { assert(u@[0] == 'd'); }
                    if u@ == seq!['w'] { assert(u@[0] == 'w'); }
                    if u@ == seq!['y'] { assert(u@[0] == 'y'); }
                }
            } else {
                assert(u@.len() != 1 && u@.len() != 2);
            }
        }
        0
    }
}

/// Whether `c` is an ASCII letter.
fn char_is_letter(c: char) -> (res: bool)
    ensures
        res == is_ascii_letter(c),
{
    ('a' <= c && c <= 'z') || ('A' <= c && c <= 'Z')
}

/// The amounts the reader picks out of `s` (see `fancy_tokens`), each with
/// its unit and its value below `huge()`.
fn read_tokens(s: &[char]) -> (res: (Vec<(Option<u128>, u8)>, Ghost<Seq<(int, Seq<char>)>>))
    ensures
        res.1@ == fancy_tokens(s@, 0),
        res.0@.len() == res.1@.len(),
        forall|t: int| 0 <= t < res.0@.len() ==> token_held(#[trigger] res.0@[t], res.1@[t]),
{
    let n = s.len();
    let mut toks: Vec<(Option<u128>, u8)> = Vec::new();
    let ghost mut gt: Seq<(int, Seq<char>)> = Seq::empty();
    let mut i: usize = 0;
    while i < n
        invariant
            n == s@.len(),
            i <= n,
            fancy_tokens(s@, 0) == gt + fancy_tokens(s@, i as int),
            toks@.len() == gt.len(),
            forall|t: int| 0 <= t < toks@.len() ==> token_held(#[trigger] toks@[t], gt[t]),
        decreases n - i,
    {
        if !crate::text::char_is_digit(s[i]) {
            i = i + 1;
            continue;
        }
        let ghost start = i as int;
        proof {
            lemma_digits_end(s@, start);
        }
        let mut j = i;
        let mut value: Option<u128> = Some(0);
        while j < n && crate::text::char_is_digit(s[j])
            invariant
                n == s@.len(),
                0 <= start <= j <= n,
                digits_end(s@, start) == digits_end(s@, j as int),
                forall|k: int| start <= k < j ==> is_digit(#[trigger] s@[k]),
                match value {
                    Some(v) => v as int == digits_value(s@.subrange(start, j as int)) && v < huge(),
                    None => digits_value(s@.subrange(start, j as int)) >= huge(),
                },
            decreases n - j,
        {
            let d = (s[j] as u32 - '0' as u32) as u128;
            let ghost before = s@.subrange(start, j as int);
            assert(s@.subrange(start, j + 1).drop_last() =~= before);
            assert(s@.subrange(start, j + 1).last() == s@[j as int]);
            assert(crate::text::all_digits(before));
            proof {
                crate::text::lemma_digits_value_nonneg(before);
            }
            value = match value {
                Some(v) => {
                    let w = v * 10 + d;
                    if w < 100_000_000_000_000_000_000_000_000u128 {
                        Some(w)
                    } else {
                        None
                    }
                },
                None => None,
            };
            j = j + 1;
        }
        let k = if j < n && char_is_letter(s[j]) {
            if j + 1 < n && char_is_letter(s[j + 1]) {
                j + 2
            } else {
                j + 1
            }
        } else {
            j
        };
        assert(j as int == digits_end(s@, start));
        assert(k as int == letters_end(s@, j as int));
        assert(fancy_tokens(s@, start) == if k == j {
            fancy_tokens(s@, j as int)
        } else {
            seq![(digits_value(s@.subrange(start, j as int)), s@.subrange(j as int, k as int))]
                + fancy_tokens(s@, k as int)
        });
        if k > j {
            let mut letters: Vec<char> = Vec::new();
            letters.push(s[j]);
            if k - j == 2 {
                letters.push(s[j + 1]);
            }
            assert(letters@ =~= s@.subrange(j as int, k as int));
            let code = unit_code_exec(letters.as_slice());
            assert(crate::text::all_digits(s@.subrange(start, j as int)));
            proof {
                crate::text::lemma_digits_value_nonneg(s@.subrange(start, j as int));
                let g = (digits_value(s@.subrange(start, j as int)), s@.subrange(j as int, k as int));
                assert(gt + fancy_tokens(s@, start) =~= gt.push(g) + fancy_tokens(s@, k as int));
                gt = gt.push(g);
            }
            toks.push((value, code));
        }
        i = k;
    }
    (toks, Ghost(gt))
}

/// Whether the duration text `s` stays within the reader's integer range
/// (see `duration_text_bounded`).
pub fn text_bounded(s: &[char]) -> (res: bool)
    ensures
        res == duration_text_bounded(s@),
{
    let (toks, Ghost(gt)) = read_tokens(s);
    let len = toks.len();
    assert forall|i: int| 0 <= i < gt.len() implies (#[trigger] gt[i]).0 >= 0 by {
        assert(token_held(toks@[i], gt[i]));
    }
    let mut sec: u128 = 0;
    let mut sub: u128 = 0;
    let mut past = false;
    let mut k = len;
    while k > 0
        invariant
            len == toks@.len(),
            len == gt.len(),
            k <= len,
            forall|t: int| 0 <= t < toks@.len() ==> token_held(#[trigger] toks@[t], gt[t]),
            forall|i: int| 0 <= i < gt.len() ==> (#[trigger] gt[i]).0 >= 0,
            fancy_sums(gt.subrange(k as int, len as int)) == (sec as int, sub as int, past),
            sec <= 9_223_372_036_854_775u128,
            sub <= 18_446_744_073_709_551_615u128,
            gt == fancy_tokens(s@, 0),
        decreases k,
    {
        let ghost rest = gt.subrange(k as int, len as int);
        let ghost t = gt.subrange(k - 1, len as int);
        assert(t.drop_first() =~= rest);
        assert(t[0] == gt[k - 1]);
        let (value, code) = toks[k - 1];
        assert(token_held(toks@[k - 1], gt[k - 1]));
        let scale: u128 = if code == 1 {
            1
        } else if code == 2 {
            1000
        } else if code == 3 {
            1_000_000
        } else if code == 4 {
            1
        } else if code == 5 {
            if past {
                2_592_000
            } else {
                60
            }
        } else if code == 6 {
            3600
        } else if code == 7 {
            86400
        } else if code == 8 {
            604800
        } else if code == 9 {
            31_104_000
        } else {
            0
        };
        assert(scale as int == unit_scale(code as int, past));
        if code != 0 {
            let v = match value {
                Some(v) => v,
                None => {
                    proof {
                        lemma_sums_grow(gt, k - 1);
                        assert(gt[k - 1].0 * scale >= gt[k - 1].0) by (nonlinear_arith)
                            requires
                                scale >= 1,
                                gt[k - 1].0 >= 0,
                        ;
                    }
                    return false;
                },
            };
            assert(v * scale < 100_000_000_000_000_000_000_000_000u128 * 31_104_000u128) by (nonlinear_arith)
                requires
                    v < 100_000_000_000_000_000_000_000_000u128,
                    scale <= 31_104_000,
            ;
            let amount = v * scale;
            if code <= 3 {
                sub = sub + amount;
            } else {
                sec = sec + amount;
                past = past || code >= 5;
            }
            assert(fancy_sums(t) == (sec as int, sub as int, past));
            if sec > 9_223_372_036_854_775u128 || sub > 18_446_744_073_709_551_615u128 {
                proof {
                    lemma_sums_grow(gt, k - 1);
                    assert(gt.subrange(k - 1, len as int) == t);
                }
                return false;
            }
        } else {
            assert(fancy_sums(t) == (sec as int, sub as int, past));
        }
        k = k - 1;
    }
    assert(gt.subrange(0, len as int) =~= gt);
    sec * 1_000_000_000u128 + sub <= 9_223_372_036_854_775_807_000_000u128
}

/// The length in nanoseconds that `FancyDuration::<chrono::Duration>::parse`
/// reads from a text `s` within its range (see `duration_text_bounded`):
/// the seconds and the nanoseconds it adds up (see `fancy_sums`), or `None`
/// where the nanoseconds do not fit a signed 64-bit integer.
pub open spec fn fancy_duration_nanos(s: Seq<char>) -> Option<int> {
    let sums = fancy_sums(fancy_tokens(s, 0));
    if sums.1 <= i64::MAX {
        Some(sums.0 * NANOS_PER_SEC + sums.1)
    } else {
        None
    }
}

/// Calls `FancyDuration::<chrono::Duration>::parse` and hands back the
/// whole seconds and the nanoseconds below a second of what it read.
///
/// The reader picks out each run of digits followed by one or two letters
/// (see `fancy_tokens`), multiplies it by its unit and adds the seconds
/// and the nanoseconds up in unsigned 64-bit integers (see `fancy_sums`);
/// where those sums stay within both ranges (`duration_text_bounded`) none
/// of its number readings, multiplications or additions fails. It then
/// turns the seconds into a `chrono` duration, which succeeds within the
/// range, and the nanoseconds into a signed 64-bit integer, which fails
/// exactly where they exceed it, and adds the two (see
/// `fancy_duration_nanos`). The sum is not negative, so its whole seconds
/// and the nanoseconds below a second are its parts.
#[verifier::external_body]
fn fancy_parse_parts(s: &str) -> (res: Option<(i64, i32)>)
    requires
        duration_text_bounded(s@),
    ensures
        res is Some <==> fancy_duration_nanos(s@) is Some,
        res matches Some(p) ==> {
            &&& 0 <= p.0
            &&& 0 <= p.1 < NANOS_PER_SEC
            &&& fancy_duration_nanos(s@) == Some(p.0 * NANOS_PER_SEC + p.1)
        },
{
    match fancy_duration::FancyDuration::<chrono::Duration>::parse(s) {
        Ok(d) => Some((d.duration().num_seconds(), d.duration().subsec_nanos())),
        Err(_) => None,
    }
}

/// The length in nanoseconds that `s` reads as, when the reader accepts
/// it and the length is within the range of a duration.
pub open spec fn duration_reading(s: Seq<char>) -> Option<int> {
    match fancy_duration_nanos(s) {
        Some(n) => if duration_in_range(n) {
            Some(n)
        } else {
            None
        },
        None => None,
    }
}

/// Reads a duration such as `5m`, `1h` or `2h15m12s`.
pub fn parse_duration(s: &str) -> (res: Option<Duration>)
    requires
        duration_text_bounded(s@),
    ensures
        res is Some <==> duration_reading(s@) is Some,
        res matches Some(d) ==> duration_reading(s@) == Some(d@),
{
    match fancy_parse_parts(s) {
        Some((secs, nanos)) => {
            let n: i128 = secs as i128 * (NANOS_PER_SEC as i128) + nanos as i128;
            Duration::from_nanos(n)
        },
        None => None,
    }
}

} // verus!
