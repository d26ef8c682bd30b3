//! Character-level text handling for the entry and search languages:
//! integer parsing, trimming, splitting, substring search and
//! case folding.

use vstd::prelude::*;

verus! {

// ------------------------------------------------------------------------
// Characters
// ------------------------------------------------------------------------

/// Whether `c` is an ASCII decimal digit.
pub open spec fn is_digit(c: char) -> bool {
    '0' <= c <= '9'
}

/// The value of the ASCII digit `c`.
pub open spec fn digit_value(c: char) -> int {
    (c as int) - ('0' as int)
}

/// Whether `c` has the Unicode `White_Space` property.
pub open spec fn is_whitespace(c: char) -> bool {
    ||| ('\u{9}' <= c <= '\u{d}')
    ||| c == ' '
    ||| c == '\u{85}'
    ||| c == '\u{a0}'
    ||| c == '\u{1680}'
    ||| ('\u{2000}' <= c <= '\u{200a}')
    ||| c == '\u{2028}'
    ||| c == '\u{2029}'
    ||| c == '\u{202f}'
    ||| c == '\u{205f}'
    ||| c == '\u{3000}'
}

/// Whether `c` is an ASCII digit.
pub fn char_is_digit(c: char) -> (res: bool)
    ensures
        res == is_digit(c),
{
    '0' <= c && c <= '9'
}

/// Whether `c` has the Unicode `White_Space` property.
pub fn char_is_whitespace(c: char) -> (res: bool)
    ensures
        res == is_whitespace(c),
{
    ('\u{9}' <= c && c <= '\u{d}') || c == ' ' || c == '\u{85}' || c == '\u{a0}' || c
        == '\u{1680}' || ('\u{2000}' <= c && c <= '\u{200a}') || c == '\u{2028}' || c
        == '\u{2029}' || c == '\u{202f}' || c == '\u{205f}' || c == '\u{3000}'
}

// ------------------------------------------------------------------------
// Strings as character sequences
// ------------------------------------------------------------------------

/// The characters of `s`.
pub fn to_chars(s: &str) -> (res: Vec<char>)
    ensures
        res@ == s@,
{
    let n = s.unicode_len();
    let mut v: Vec<char> = Vec::new();
    for i in 0..n
        invariant
            n == s@.len(),
            v@ == s@.subrange(0, i as int),
    {
        v.push(s.get_char(i));
        assert(v@ =~= s@.subrange(0, i + 1));
    }
    assert(v@ =~= s@);
    v
}

/// The string made of the characters `v`.
#[verifier::external_body]
pub fn from_chars(v: &[char]) -> (res: String)
    ensures
        res@ == v@,
{
    v.iter().collect()
}

/// Whether two character sequences are equal.
pub fn chars_eq(a: &[char], b: &[char]) -> (res: bool)
    ensures
        res == (a@ == b@),
{
    if a.len() != b.len() {
        return false;
    }
    let n = a.len();
    for i in 0..n
        invariant
            n == a@.len(),
            n == b@.len(),
            forall|j: int| 0 <= j < i ==> a@[j] == b@[j],
    {
        if a[i] != b[i] {
            return false;
        }
    }
    assert(a@ =~= b@);
    true
}

/// Whether the text `a` comes before `b` in the order of `String`:
/// character by character (UTF-8 bytes order as characters do), a prefix
/// first.
pub open spec fn text_before(a: Seq<char>, b: Seq<char>) -> bool
    decreases a.len(),
{
    if a.len() == 0 {
        b.len() > 0
    } else if b.len() == 0 {
        false
    } else if a[0] != b[0] {
        a[0] < b[0]
    } else {
        text_before(a.drop_first(), b.drop_first())
    }
}

/// The order of texts is strict and total: no text comes before itself,
/// and of two different texts one comes first, never both.
pub proof fn lemma_text_order(a: Seq<char>, b: Seq<char>)
    ensures
        !text_before(a, a),
        a != b ==> (text_before(a, b) || text_before(b, a)),
        !(text_before(a, b) && text_before(b, a)),
    decreases a.len(),
{
    if a.len() > 0 {
        lemma_text_order(a.drop_first(), a.drop_first());
        if b.len() > 0 {
            lemma_text_order(a.drop_first(), b.drop_first());
            if a[0] == b[0] && a != b {
                assert(a.drop_first() != b.drop_first()) by {
                    if a.drop_first() == b.drop_first() {
                        assert(a =~= seq![a[0]] + a.drop_first());
                        assert(b =~= seq![b[0]] + b.drop_first());
                    }
                }
            }
        }
    } else if b.len() == 0 {
        assert(a =~= b);
    }
}

/// The order of texts is transitive.
pub proof fn lemma_text_order_trans(a: Seq<char>, b: Seq<char>, c: Seq<char>)
    requires
        text_before(a, b),
        text_before(b, c),
    ensures
        text_before(a, c),
    decreases a.len(),
{
    if a.len() > 0 && b.len() > 0 && c.len() > 0 && a[0] == b[0] && b[0] == c[0] {
        lemma_text_order_trans(a.drop_first(), b.drop_first(), c.drop_first());
    }
}

/// Whether the characters `a` come before `b` (see `text_before`).
pub fn chars_before(a: &[char], b: &[char]) -> (res: bool)
    ensures
        res == text_before(a@, b@),
{
    let mut i: usize = 0;
    assert(a@.subrange(0, a@.len() as int) =~= a@);
    assert(b@.subrange(0, b@.len() as int) =~= b@);
    while i < a.len() && i < b.len() && a[i] == b[i]
        invariant
            i <= a@.len(),
            i <= b@.len(),
            a@.subrange(0, i as int) == b@.subrange(0, i as int),
            text_before(a@, b@) == text_before(
                a@.subrange(i as int, a@.len() as int),
                b@.subrange(i as int, b@.len() as int),
            ),
        decreases a@.len() - i,
    {
        let ghost x = a@.subrange(i as int, a@.len() as int);
        let ghost y = b@.subrange(i as int, b@.len() as int);
        assert(x.drop_first() =~= a@.subrange(i + 1, a@.len() as int));
        assert(y.drop_first() =~= b@.subrange(i + 1, b@.len() as int));
        assert(a@.subrange(0, i + 1) =~= a@.subrange(0, i as int).push(a@[i as int]));
        assert(b@.subrange(0, i + 1) =~= b@.subrange(0, i as int).push(b@[i as int]));
        i = i + 1;
    }
    let ghost x = a@.subrange(i as int, a@.len() as int);
    let ghost y = b@.subrange(i as int, b@.len() as int);
    if i < a.len() && i < b.len() {
        assert(x[0] == a@[i as int] && y[0] == b@[i as int]);
        a[i] < b[i]
    } else {
        i == a.len() && i < b.len()
    }
}

/// Whether the characters `a` spell the string literal `lit`.
pub fn chars_are(a: &[char], lit: &str) -> (res: bool)
    ensures
        res == (a@ == lit@),
{
    let l = to_chars(lit);
    chars_eq(a, l.as_slice())
}

/// Whether every character of `s` is ASCII.
pub open spec fn ascii_text(s: Seq<char>) -> bool {
    forall|i: int| 0 <= i < s.len() ==> (#[trigger] s[i] as u32) < 128
}

/// The ASCII lower-case form of `c`: `A` to `Z` become `a` to `z`.
pub open spec fn ascii_lower_char(c: char) -> char {
    if 'A' <= c && c <= 'Z' {
        ((c as u32) + 32) as char
    } else {
        c
    }
}

/// The ASCII lower-case form of `s`.
pub open spec fn ascii_lowercase(s: Seq<char>) -> Seq<char> {
    s.map_values(|c: char| ascii_lower_char(c))
}

/// The Unicode lower-case form of a string, as `str::to_lowercase`
/// computes it.
pub uninterp spec fn unicode_lowercase(s: Seq<char>) -> Seq<char>;

/// The lower-case form of a string: for ASCII text, `A` to `Z` become `a`
/// to `z`; otherwise the Unicode mapping.
pub open spec fn lowercase(s: Seq<char>) -> Seq<char> {
    if ascii_text(s) {
        ascii_lowercase(s)
    } else {
        unicode_lowercase(s)
    }
}

/// Calls `str::to_lowercase`; the result is the Unicode lower-case mapping
/// of `s` (its `Lowercase` property), which depends on `s` alone. Within
/// ASCII that mapping takes `A` to `Z` to `a` to `z` and leaves every
/// other character as it is.
#[verifier::external_body]
pub fn to_lowercase(s: &str) -> (res: String)
    ensures
        res@ == unicode_lowercase(s@),
        ascii_text(s@) ==> res@ == ascii_lowercase(s@),
{
    s.to_lowercase()
}

/// The lower-case form of the characters `v`.
pub fn chars_lowercase(v: &[char]) -> (res: Vec<char>)
    ensures
        res@ == lowercase(v@),
{
    let s = from_chars(v);
    let l = to_lowercase(s.as_str());
    to_chars(l.as_str())
}

// ------------------------------------------------------------------------
// Integers
// ------------------------------------------------------------------------

/// Whether every character of `s` is an ASCII digit.
pub open spec fn all_digits(s: Seq<char>) -> bool {
    forall|i: int| 0 <= i < s.len() ==> is_digit(#[trigger] s[i])
}

/// The decimal value of the digits `s`.
pub open spec fn digits_value(s: Seq<char>) -> int
    decreases s.len(),
{
    if s.len() == 0 {
        0
    } else {
        digits_value(s.drop_last()) * 10 + digit_value(s.last())
    }
}

/// The value that `str::parse` gives for an unsigned integer type whose
/// largest value is `max`: an optional `+` followed by at least one digit,
/// the value not above `max`.
pub open spec fn parse_unsigned(s: Seq<char>, max: int) -> Option<int> {
    let body = if s.len() > 0 && s[0] == '+' { s.drop_first() } else { s };
    if body.len() > 0 && all_digits(body) && digits_value(body) <= max {
        Some(digits_value(body))
    } else {
        None
    }
}

/// The value that `str::parse` gives for a signed integer type with range
/// `min..=max`: an optional `+` or `-` followed by at least one digit.
pub open spec fn parse_signed(s: Seq<char>, min: int, max: int) -> Option<int> {
    if s.len() > 0 && s[0] == '-' {
        let body = s.drop_first();
        if body.len() > 0 && all_digits(body) && -digits_value(body) >= min {
            Some(-digits_value(body))
        } else {
            None
        }
    } else {
        let body = if s.len() > 0 && s[0] == '+' { s.drop_first() } else { s };
        if body.len() > 0 && all_digits(body) && digits_value(body) <= max {
            Some(digits_value(body))
        } else {
            None
        }
    }
}

pub proof fn lemma_digits_value_nonneg(s: Seq<char>)
    requires
        all_digits(s),
    ensures
        digits_value(s) >= 0,
    decreases s.len(),
{
    if s.len() > 0 {
        lemma_digits_value_nonneg(s.drop_last());
    }
}

proof fn lemma_digits_value_monotone(s: Seq<char>, i: int)
    requires
        all_digits(s),
        0 <= i <= s.len(),
    ensures
        digits_value(s.subrange(0, i)) <= digits_value(s),
    decreases s.len() - i,
{
    if i < s.len() {
        let t = s.subrange(0, i + 1);
        assert(t.drop_last() =~= s.subrange(0, i));
        lemma_digits_value_nonneg(s.subrange(0, i));
        lemma_digits_value_monotone(s, i + 1);
    } else {
        assert(s.subrange(0, i) =~= s);
    }
}

/// The value of the digit string `s` (after an optional sign was removed),
/// when it is at most `max`.
fn digits_up_to(s: &[char], start: usize, max: u128) -> (res: Option<u128>)
    requires
        start <= s@.len(),
        max <= u64::MAX,
    ensures
        ({
            let body = s@.subrange(start as int, s@.len() as int);
            &&& res is Some <==> (body.len() > 0 && all_digits(body) && digits_value(body) <= max)
            &&& res matches Some(v) ==> v == digits_value(body) && v <= max
        }),
{
    let ghost body = s@.subrange(start as int, s@.len() as int);
    if start == s.len() {
        return None;
    }
    let mut i = start;
    let mut acc: u128 = 0;
    while i < s.len()
        invariant
            start <= i <= s@.len(),
            body == s@.subrange(start as int, s@.len() as int),
            all_digits(s@.subrange(start as int, i as int)),
            acc == digits_value(s@.subrange(start as int, i as int)),
            acc <= max,
            max <= u64::MAX,
        decreases s@.len() - i,
    {
        let c = s[i];
        if !char_is_digit(c) {
            assert(body[i - start] == c);
            return None;
        }
        let d = (c as u32 - '0' as u32) as u128;
        let next = acc * 10 + d;
        let ghost pre = s@.subrange(start as int, i as int);
        let ghost post = s@.subrange(start as int, i + 1);
        assert(post.drop_last() =~= pre);
        assert(all_digits(post)) by {
            assert forall|j: int| 0 <= j < post.len() implies is_digit(#[trigger] post[j]) by {
                if j < pre.len() {
                    assert(post[j] == pre[j]);
                }
            }
        }
        if next > max {
            proof {
                assert(digits_value(post) > max);
                if all_digits(body) {
                    assert(post =~= body.subrange(0, i + 1 - start));
                    lemma_digits_value_monotone(body, i + 1 - start);
                }
            }
            return None;
        }
        acc = next;
        i = i + 1;
    }
    assert(s@.subrange(start as int, i as int) =~= body);
    Some(acc)
}

/// Parses an unsigned integer of at most `max` as `str::parse` does.
fn parse_unsigned_exec(s: &[char], max: u128) -> (res: Option<u128>)
    requires
        max <= u64::MAX,
    ensures
        res matches Some(v) ==> parse_unsigned(s@, max as int) == Some(v as int),
        res is None ==> parse_unsigned(s@, max as int) is None,
{
    let start: usize = if s.len() > 0 && s[0] == '+' { 1 } else { 0 };
    let r = digits_up_to(s, start, max);
    proof {
        let body = if s@.len() > 0 && s@[0] == '+' { s@.drop_first() } else { s@ };
        assert(body =~= s@.subrange(start as int, s@.len() as int));
    }
    r
}

/// Parses a `u32` as `str::parse` does.
pub fn parse_u32(s: &[char]) -> (res: Option<u32>)
    ensures
        res matches Some(v) ==> parse_unsigned(s@, u32::MAX as int) == Some(v as int),
        res is None ==> parse_unsigned(s@, u32::MAX as int) is None,
{
    match parse_unsigned_exec(s, u32::MAX as u128) {
        Some(v) => Some(v as u32),
        None => None,
    }
}

/// Parses a `u64` as `str::parse` does.
pub fn parse_u64(s: &[char]) -> (res: Option<u64>)
    ensures
        res matches Some(v) ==> parse_unsigned(s@, u64::MAX as int) == Some(v as int),
        res is None ==> parse_unsigned(s@, u64::MAX as int) is None,
{
    match parse_unsigned_exec(s, u64::MAX as u128) {
        Some(v) => Some(v as u64),
        None => None,
    }
}

/// Parses a signed integer with range `-max_neg..=max` as `str::parse` does.
fn parse_signed_exec(s: &[char], max_neg: u128, max: u128) -> (res: Option<i128>)
    requires
        max_neg <= u64::MAX,
        max <= u64::MAX,
    ensures
        res matches Some(v) ==> parse_signed(s@, -(max_neg as int), max as int) == Some(v as int)
            && -(max_neg as int) <= v <= max,
        res is None ==> parse_signed(s@, -(max_neg as int), max as int) is None,
{
    if s.len() > 0 && s[0] == '-' {
        let r = digits_up_to(s, 1, max_neg);
        proof {
            assert(s@.drop_first() =~= s@.subrange(1, s@.len() as int));
        }
        match r {
            Some(v) => Some(-(v as i128)),
            None => None,
        }
    } else {
        let start: usize = if s.len() > 0 && s[0] == '+' { 1 } else { 0 };
        let r = digits_up_to(s, start, max);
        proof {
            let body = if s@.len() > 0 && s@[0] == '+' { s@.drop_first() } else { s@ };
            assert(body =~= s@.subrange(start as int, s@.len() as int));
        }
        match r {
            Some(v) => Some(v as i128),
            None => None,
        }
    }
}

/// Parses an `i32` as `str::parse` does.
pub fn parse_i32(s: &[char]) -> (res: Option<i32>)
    ensures
        res matches Some(v) ==> parse_signed(s@, i32::MIN as int, i32::MAX as int) == Some(
            v as int,
        ),
        res is None ==> parse_signed(s@, i32::MIN as int, i32::MAX as int) is None,
{
    match parse_signed_exec(s, 2147483648u128, 2147483647u128) {
        Some(v) => Some(v as i32),
        None => None,
    }
}

/// Parses an `i64` as `str::parse` does.
pub fn parse_i64(s: &[char]) -> (res: Option<i64>)
    ensures
        res matches Some(v) ==> parse_signed(s@, i64::MIN as int, i64::MAX as int) == Some(
            v as int,
        ),
        res is None ==> parse_signed(s@, i64::MIN as int, i64::MAX as int) is None,
{
    match parse_signed_exec(s, 9223372036854775808u128, 9223372036854775807u128) {
        Some(v) => Some(v as i64),
        None => None,
    }
}

// ------------------------------------------------------------------------
// Trimming, splitting, searching
// ------------------------------------------------------------------------

/// `s` without leading white space.
pub open spec fn trim_start(s: Seq<char>) -> Seq<char>
    decreases s.len(),
{
    if s.len() > 0 && is_whitespace(s[0]) {
        trim_start(s.drop_first())
    } else {
        s
    }
}

/// `s` without trailing white space.
pub open spec fn trim_end(s: Seq<char>) -> Seq<char>
    decreases s.len(),
{
    if s.len() > 0 && is_whitespace(s.last()) {
        trim_end(s.drop_last())
    } else {
        s
    }
}

/// `s` without leading and trailing white space, as `str::trim` gives it.
pub open spec fn trim(s: Seq<char>) -> Seq<char> {
    trim_end(trim_start(s))
}

/// Removes leading and trailing white space.
pub fn trim_chars(s: &[char]) -> (res: Vec<char>)
    ensures
        res@ == trim(s@),
{
    let n = s.len();
    let mut a: usize = 0;
    assert(s@.subrange(0, n as int) =~= s@);
    while a < n && char_is_whitespace(s[a])
        invariant
            n == s@.len(),
            a <= n,
            trim_start(s@) == trim_start(s@.subrange(a as int, n as int)),
        decreases n - a,
    {
        assert(s@.subrange(a as int, n as int).drop_first() =~= s@.subrange(a + 1, n as int));
        a = a + 1;
    }
    let mut b: usize = n;
    assert(s@ =~= s@.subrange(0, n as int));
    assert(trim_start(s@) == s@.subrange(a as int, n as int));
    while b > a && char_is_whitespace(s[b - 1])
        invariant
            n == s@.len(),
            a <= b <= n,
            trim(s@) == trim_end(s@.subrange(a as int, b as int)),
        decreases b - a,
    {
        assert(s@.subrange(a as int, b as int).drop_last() =~= s@.subrange(a as int, b - 1));
        b = b - 1;
    }
    let mut v: Vec<char> = Vec::new();
    for i in a..b
        invariant
            a <= b <= n,
            n == s@.len(),
            v@ == s@.subrange(a as int, i as int),
    {
        v.push(s[i]);
        assert(v@ =~= s@.subrange(a as int, i + 1));
    }
    v
}

/// The pieces of `s` between the characters that occur in `seps`, as
/// `str::split` gives them (an empty `s` gives one empty piece).
pub open spec fn split_by(s: Seq<char>, seps: Seq<char>) -> Seq<Seq<char>>
    decreases s.len(),
{
    if s.len() == 0 {
        seq![Seq::empty()]
    } else {
        let rest = split_by(s.drop_last(), seps);
        if seps.contains(s.last()) {
            rest.push(Seq::empty())
        } else {
            rest.update(rest.len() - 1, rest.last().push(s.last()))
        }
    }
}

/// Splitting always gives at least one piece.
pub proof fn lemma_split_by_nonempty(s: Seq<char>, seps: Seq<char>)
    ensures
        split_by(s, seps).len() >= 1,
    decreases s.len(),
{
    if s.len() > 0 {
        lemma_split_by_nonempty(s.drop_last(), seps);
    }
}

/// Splitting a text in which no separator occurs gives the text itself.
pub proof fn lemma_split_without_separator(s: Seq<char>, seps: Seq<char>)
    requires
        forall|i: int| 0 <= i < s.len() ==> !seps.contains(#[trigger] s[i]),
    ensures
        split_by(s, seps) == seq![s],
    decreases s.len(),
{
    if s.len() > 0 {
        let p = s.drop_last();
        assert forall|i: int| 0 <= i < p.len() implies !seps.contains(#[trigger] p[i]) by {
            assert(p[i] == s[i]);
        }
        lemma_split_without_separator(p, seps);
        assert(!seps.contains(s[s.len() - 1]));
        let rest = split_by(p, seps);
        assert(rest == seq![p]);
        assert(rest.update(rest.len() - 1, rest.last().push(s.last())) =~= seq![p.push(s.last())]);
        assert(p.push(s.last()) =~= s);
        assert(split_by(s, seps) == rest.update(rest.len() - 1, rest.last().push(s.last())));
    } else {
        assert(s =~= Seq::<char>::empty());
    }
}

/// Splitting `x`, a separator `c` and `y` gives the pieces of `x`
/// followed by the pieces of `y`.
pub proof fn lemma_split_by_join(x: Seq<char>, c: char, y: Seq<char>, seps: Seq<char>)
    requires
        seps.contains(c),
    ensures
        split_by(x + seq![c] + y, seps) == split_by(x, seps) + split_by(y, seps),
    decreases y.len(),
{
    let s = x + seq![c] + y;
    let a = split_by(x, seps);
    lemma_split_by_nonempty(x, seps);
    if y.len() == 0 {
        assert(s.drop_last() =~= x);
        assert(s.last() == c);
        assert(a.push(Seq::<char>::empty()) =~= a + seq![Seq::<char>::empty()]);
    } else {
        let y0 = y.drop_last();
        lemma_split_by_join(x, c, y0, seps);
        assert(s.drop_last() =~= x + seq![c] + y0);
        assert(s.last() == y.last());
        lemma_split_by_nonempty(y0, seps);
        let b = split_by(y0, seps);
        if seps.contains(y.last()) {
            assert((a + b).push(Seq::<char>::empty()) =~= a + b.push(Seq::<char>::empty()));
        } else {
            assert((a + b).update((a + b).len() - 1, (a + b).last().push(y.last())) =~= a + b.update(
                b.len() - 1,
                b.last().push(y.last()),
            ));
        }
    }
}

/// Splits `s` at every character that occurs in `seps`.
pub fn split_at_any(s: &[char], seps: &[char]) -> (res: Vec<Vec<char>>)
    ensures
        res@.len() == split_by(s@, seps@).len(),
        res@.len() >= 1,
        forall|i: int| 0 <= i < res@.len() ==> #[trigger] res@[i]@ == split_by(s@, seps@)[i],
{
    let mut res: Vec<Vec<char>> = Vec::new();
    let mut cur: Vec<char> = Vec::new();
    let n = s.len();
    for i in 0..n
        invariant
            n == s@.len(),
            ({
                let sp = split_by(s@.subrange(0, i as int), seps@);
                &&& res@.len() + 1 == sp.len()
                &&& forall|k: int| 0 <= k < res@.len() ==> #[trigger] res@[k]@ == sp[k]
                &&& cur@ == sp.last()
            }),
    {
        let ghost pre = s@.subrange(0, i as int);
        let ghost post = s@.subrange(0, i + 1);
        assert(post.drop_last() =~= pre);
        assert(post.last() == s@[i as int]);
        proof {
            lemma_split_by_nonempty(pre, seps@);
        }
        let c = s[i];
        let mut is_sep = false;
        for j in 0..seps.len()
            invariant
                is_sep == exists|k: int| 0 <= k < j && seps@[k] == c,
        {
            if seps[j] == c {
                is_sep = true;
            }
        }
        assert(is_sep == seps@.contains(c));
        if is_sep {
            let mut finished: Vec<char> = Vec::new();
            std::mem::swap(&mut finished, &mut cur);
            res.push(finished);
            assert(cur@ =~= Seq::<char>::empty());
        } else {
            cur.push(c);
        }
    }
    assert(s@.subrange(0, n as int) =~= s@);
    proof {
        lemma_split_by_nonempty(s@, seps@);
    }
    res.push(cur);
    res
}

/// The pieces of `s` between the occurrences of `c`.
pub open spec fn split_at_char(s: Seq<char>, c: char) -> Seq<Seq<char>> {
    split_by(s, seq![c])
}

/// Splits `s` at every occurrence of `c`.
pub fn split_on(s: &[char], c: char) -> (res: Vec<Vec<char>>)
    ensures
        res@.len() == split_at_char(s@, c).len(),
        res@.len() >= 1,
        forall|i: int| 0 <= i < res@.len() ==> #[trigger] res@[i]@ == split_at_char(s@, c)[i],
{
    let seps: Vec<char> = vec![c];
    assert(seps@ =~= seq![c]);
    split_at_any(s, seps.as_slice())
}

/// Whether `s` ends with `suffix`.
pub open spec fn ends_with(s: Seq<char>, suffix: Seq<char>) -> bool {
    suffix.len() <= s.len() && s.subrange(s.len() - suffix.len(), s.len() as int) == suffix
}

/// Whether `s` holds `pat` at position `i`.
pub open spec fn occurs_at(s: Seq<char>, pat: Seq<char>, i: int) -> bool {
    0 <= i && i + pat.len() <= s.len() && s.subrange(i, i + pat.len()) == pat
}

/// Whether `pat` occurs in `s`, as `str::contains` decides.
pub open spec fn contains_seq(s: Seq<char>, pat: Seq<char>) -> bool {
    exists|i: int| occurs_at(s, pat, i)
}

/// `s` with every non-overlapping occurrence of the non-empty `pat`, taken
/// from the left, removed, as `str::replace(pat, "")` gives it.
pub open spec fn remove_all(s: Seq<char>, pat: Seq<char>) -> Seq<char>
    decreases s.len(),
{
    if pat.len() == 0 || s.len() == 0 {
        s
    } else if occurs_at(s, pat, 0) {
        remove_all(s.subrange(pat.len() as int, s.len() as int), pat)
    } else {
        seq![s[0]] + remove_all(s.drop_first(), pat)
    }
}

/// Whether `s` holds `pat` at position `i`.
pub fn chars_occur_at(s: &[char], pat: &[char], i: usize) -> (res: bool)
    ensures
        res == occurs_at(s@, pat@, i as int),
{
    if i > s.len() || pat.len() > s.len() - i {
        return false;
    }
    let m = pat.len();
    for k in 0..m
        invariant
            m == pat@.len(),
            i + m <= s@.len(),
            s@.len() == s.len(),
            forall|j: int| 0 <= j < k ==> s@[i + j] == pat@[j],
    {
        if s[i + k] != pat[k] {
            assert(s@.subrange(i as int, i + m)[k as int] != pat@[k as int]);
            return false;
        }
    }
    assert(s@.subrange(i as int, i + m) =~= pat@);
    true
}

/// Whether `s` ends with `suffix`.
pub fn chars_end_with(s: &[char], suffix: &[char]) -> (res: bool)
    ensures
        res == ends_with(s@, suffix@),
{
    if suffix.len() > s.len() {
        return false;
    }
    chars_occur_at(s, suffix, s.len() - suffix.len())
}

/// Whether `pat` occurs in `s`.
pub fn chars_contain(s: &[char], pat: &[char]) -> (res: bool)
    ensures
        res == contains_seq(s@, pat@),
{
    if pat.len() > s.len() {
        assert(!contains_seq(s@, pat@));
        return false;
    }
    let last = s.len() - pat.len();
    let mut i: usize = 0;
    loop
        invariant
            last + pat@.len() == s@.len(),
            i <= last,
            forall|j: int| 0 <= j < i ==> !occurs_at(s@, pat@, j),
        decreases last - i,
    {
        if chars_occur_at(s, pat, i) {
            return true;
        }
        if i == last {
            assert forall|j: int| !occurs_at(s@, pat@, j) by {
                if 0 <= j < i {
                }
            }
            return false;
        }
        i = i + 1;
    }
}

/// Removes every non-overlapping occurrence of the non-empty `pat`.
pub fn chars_remove_all(s: &[char], pat: &[char]) -> (res: Vec<char>)
    ensures
        res@ == remove_all(s@, pat@),
{
    let n = s.len();
    let mut out: Vec<char> = Vec::new();
    let mut i: usize = 0;
    if pat.len() == 0 {
        for k in 0..n
            invariant
                n == s@.len(),
                out@ == s@.subrange(0, k as int),
        {
            out.push(s[k]);
            assert(out@ =~= s@.subrange(0, k + 1));
        }
        assert(out@ =~= s@);
        return out;
    }
    assert(s@.subrange(0, n as int) =~= s@);
    while i < n
        invariant
            n == s@.len(),
            i <= n,
            pat@.len() > 0,
            out@ + remove_all(s@.subrange(i as int, n as int), pat@) == remove_all(s@, pat@),
        decreases n - i,
    {
        let ghost rest = s@.subrange(i as int, n as int);
        if chars_occur_at(s, pat, i) {
            assert(occurs_at(rest, pat@, 0)) by {
                assert(rest.subrange(0, pat@.len() as int) =~= s@.subrange(i as int, i + pat@.len()));
            }
            assert(rest.subrange(pat@.len() as int, rest.len() as int) =~= s@.subrange(
                i + pat@.len(),
                n as int,
            ));
            i = i + pat.len();
        } else {
            assert(!occurs_at(rest, pat@, 0)) by {
                if occurs_at(rest, pat@, 0) {
                    assert(rest.subrange(0, pat@.len() as int) =~= s@.subrange(
                        i as int,
                        i + pat@.len(),
                    ));
                }
            }
            assert(rest.drop_first() =~= s@.subrange(i + 1, n as int));
            out.push(s[i]);
            assert(out@ + remove_all(s@.subrange(i + 1, n as int), pat@) =~= out@.drop_last() + (
            seq![s@[i as int]] + remove_all(s@.subrange(i + 1, n as int), pat@)));
            i = i + 1;
        }
    }
    assert(remove_all(s@.subrange(n as int, n as int), pat@) =~= Seq::<char>::empty());
    assert(out@ + Seq::<char>::empty() =~= out@);
    out
}

} // verus!
