//! Character-sequence utilities shared by the version model and the
//! synchronization engine: locating separator characters, decimal digit
//! strings, and lenient unsigned-integer parsing.

use vstd::prelude::*;

verus! {

// ---------------------------------------------------------------------------
// Locating separator characters
// ---------------------------------------------------------------------------

/// Index of the first occurrence of `c` in `s`, if any.
pub open spec fn find_char(s: Seq<char>, c: char) -> Option<int>
    decreases s.len(),
{
    if s.len() == 0 {
        None
    } else if s[0] == c {
        Some(0)
    } else {
        match find_char(s.drop_first(), c) {
            Some(i) => Some(i + 1),
            None => None,
        }
    }
}

/// Index of the last occurrence of `c` in `s`, if any.
pub open spec fn rfind_char(s: Seq<char>, c: char) -> Option<int>
    decreases s.len(),
{
    if s.len() == 0 {
        None
    } else if s.last() == c {
        Some(s.len() - 1)
    } else {
        rfind_char(s.drop_last(), c)
    }
}

/// `find_char` returns the unique index of the first occurrence of `c`.
pub proof fn lemma_find_char(s: Seq<char>, c: char)
    ensures
        match find_char(s, c) {
            Some(i) => 0 <= i < s.len() && s[i] == c && (forall|j: int| 0 <= j < i ==> s[j] != c),
            None => forall|j: int| 0 <= j < s.len() ==> s[j] != c,
        },
    decreases s.len(),
{
    if s.len() > 0 && s[0] != c {
        let t = s.drop_first();
        lemma_find_char(t, c);
        match find_char(t, c) {
            Some(i) => {
                assert(s[i + 1] == t[i]);
                assert forall|j: int| 0 <= j < i + 1 implies s[j] != c by {
                    if j > 0 {
                        assert(s[j] == t[j - 1]);
                    }
                }
            },
            None => {
                assert forall|j: int| 0 <= j < s.len() implies s[j] != c by {
                    if j > 0 {
                        assert(s[j] == t[j - 1]);
                    }
                }
            },
        }
    }
}

/// `rfind_char` returns the unique index of the last occurrence of `c`.
pub proof fn lemma_rfind_char(s: Seq<char>, c: char)
    ensures
        match rfind_char(s, c) {
            Some(i) => 0 <= i < s.len() && s[i] == c && (forall|j: int| i < j < s.len() ==> s[j] != c),
            None => forall|j: int| 0 <= j < s.len() ==> s[j] != c,
        },
    decreases s.len(),
{
    if s.len() > 0 && s.last() != c {
        lemma_rfind_char(s.drop_last(), c);
        assert(forall|k: int| 0 <= k < s.drop_last().len() ==> s.drop_last()[k] == s[k]);
    }
}

/// Whether `c` occurs anywhere in `s`.
pub open spec fn has_char(s: Seq<char>, c: char) -> bool {
    exists|i: int| 0 <= i < s.len() && s[i] == c
}

/// A character occurs in a concatenation exactly when it occurs in a part.
pub proof fn lemma_has_char_concat(a: Seq<char>, b: Seq<char>, c: char)
    ensures
        has_char(a + b, c) <==> has_char(a, c) || has_char(b, c),
{
    if has_char(a, c) {
        let i = choose|i: int| 0 <= i < a.len() && a[i] == c;
        assert((a + b)[i] == c);
    }
    if has_char(b, c) {
        let i = choose|i: int| 0 <= i < b.len() && b[i] == c;
        assert((a + b)[a.len() + i] == c);
    }
    if has_char(a + b, c) {
        let i = choose|i: int| 0 <= i < (a + b).len() && (a + b)[i] == c;
        if i < a.len() {
            assert(a[i] == c);
        } else {
            assert(b[i - a.len()] == c);
        }
    }
}

/// A one-character sequence holds exactly its character.
pub proof fn lemma_has_char_single(c: char, x: char)
    ensures
        has_char(seq![c], x) <==> c == x,
{
    if c == x {
        assert(seq![c][0] == x);
    }
}

/// Where `c` is absent, `find_char` reports nothing.
pub proof fn lemma_find_char_absent(s: Seq<char>, c: char)
    requires
        !has_char(s, c),
    ensures
        find_char(s, c) is None,
        rfind_char(s, c) is None,
{
    lemma_find_char(s, c);
    lemma_rfind_char(s, c);
    if find_char(s, c) is Some {
        let i = find_char(s, c)->Some_0;
        assert(s[i] == c);
    }
    if rfind_char(s, c) is Some {
        let i = rfind_char(s, c)->Some_0;
        assert(s[i] == c);
    }
}

/// The first occurrence of the separator in `a + [c] + b` is right after `a`
/// when `a` does not hold it.
pub proof fn lemma_find_char_concat_mid(a: Seq<char>, c: char, b: Seq<char>)
    requires
        !has_char(a, c),
    ensures
        find_char(a + seq![c] + b, c) == Some(a.len() as int),
{
    let s = a + seq![c] + b;
    lemma_find_char(s, c);
    assert(s[a.len() as int] == c);
    match find_char(s, c) {
        Some(i) => {
            if i < a.len() {
                assert(s[i] == a[i]);
            }
        },
        None => {},
    }
}

/// The last occurrence of the separator in `a + [c] + b` is right after `a`
/// when `b` does not hold it.
pub proof fn lemma_rfind_char_concat_mid(a: Seq<char>, c: char, b: Seq<char>)
    requires
        !has_char(b, c),
    ensures
        rfind_char(a + seq![c] + b, c) == Some(a.len() as int),
{
    let s = a + seq![c] + b;
    lemma_rfind_char(s, c);
    assert(s[a.len() as int] == c);
    match rfind_char(s, c) {
        Some(i) => {
            if i > a.len() {
                assert(s[i] == b[i - a.len() - 1]);
            }
        },
        None => {},
    }
}

/// First occurrence of `c` in `s`, computed left to right.
pub fn find_char_str(s: &str, c: char) -> (r: Option<usize>)
    ensures
        match r {
            Some(i) => find_char(s@, c) == Some(i as int) && i < s@.len(),
            None => find_char(s@, c) is None,
        },
{
    let n = s.unicode_len();
    let mut i: usize = 0;
    while i < n
        invariant
            n == s@.len(),
            i <= n,
            forall|j: int| 0 <= j < i ==> s@[j] != c,
        decreases n - i,
    {
        if s.get_char(i) == c {
            proof {
                lemma_find_char(s@, c);
            }
            return Some(i);
        }
        i = i + 1;
    }
    proof {
        lemma_find_char(s@, c);
    }
    None
}

/// Last occurrence of `c` in `s`, computed right to left.
pub fn rfind_char_str(s: &str, c: char) -> (r: Option<usize>)
    ensures
        match r {
            Some(i) => rfind_char(s@, c) == Some(i as int) && i < s@.len(),
            None => rfind_char(s@, c) is None,
        },
{
    let n = s.unicode_len();
    let mut i: usize = n;
    while i > 0
        invariant
            n == s@.len(),
            i <= n,
            forall|j: int| i <= j < n ==> s@[j] != c,
        decreases i,
    {
        i = i - 1;
        if s.get_char(i) == c {
            proof {
                lemma_rfind_char(s@, c);
            }
            return Some(i);
        }
    }
    proof {
        lemma_rfind_char(s@, c);
    }
    None
}

// ---------------------------------------------------------------------------
// Decimal digit strings
// ---------------------------------------------------------------------------

/// Whether `c` is an ASCII decimal digit.
pub open spec fn is_digit(c: char) -> bool {
    '0' <= c && c <= '9'
}

/// Numeric value of a digit character.
pub open spec fn digit_val(c: char) -> int {
    c as int - '0' as int
}

/// The digit character for a value in `0..=9`.
pub open spec fn digit_char(d: int) -> char {
    if d == 0 {
        '0'
    } else if d == 1 {
        '1'
    } else if d == 2 {
        '2'
    } else if d == 3 {
        '3'
    } else if d == 4 {
        '4'
    } else if d == 5 {
        '5'
    } else if d == 6 {
        '6'
    } else if d == 7 {
        '7'
    } else if d == 8 {
        '8'
    } else {
        '9'
    }
}

/// Whether every character of `s` is an ASCII decimal digit.
pub open spec fn all_digits(s: Seq<char>) -> bool {
    forall|i: int| 0 <= i < s.len() ==> is_digit(#[trigger] s[i])
}

/// Value of a digit string read in base 10.
pub open spec fn dec_val(s: Seq<char>) -> int
    decreases s.len(),
{
    if s.len() == 0 {
        0
    } else {
        dec_val(s.drop_last()) * 10 + digit_val(s.last())
    }
}

/// Canonical base-10 rendering of `n`, most significant digit first.
pub open spec fn dec_digits(n: nat) -> Seq<char>
    decreases n,
{
    if n < 10 {
        seq![digit_char(n as int)]
    } else {
        dec_digits(n / 10) + seq![digit_char((n % 10) as int)]
    }
}

/// The canonical rendering of `n` is a nonempty digit string whose value is `n`.
pub proof fn lemma_dec_digits_wf(n: nat)
    ensures
        dec_digits(n).len() >= 1,
        all_digits(dec_digits(n)),
        dec_val(dec_digits(n)) == n,
    decreases n,
{
    if n < 10 {
        let s = dec_digits(n);
        assert(s =~= seq![digit_char(n as int)]);
        assert(s.len() == 1);
        assert(s.last() == digit_char(n as int));
        assert(s.drop_last() =~= Seq::<char>::empty());
        assert(dec_val(s.drop_last()) == 0);
        assert(dec_val(s) == digit_val(digit_char(n as int)));
    } else {
        lemma_dec_digits_wf(n / 10);
        let a = dec_digits(n / 10);
        let d = digit_char((n % 10) as int);
        let s = dec_digits(n);
        assert(s == a + seq![d]);
        assert(s.drop_last() =~= a);
        assert(s.last() == d);
        assert(dec_val(s) == dec_val(a) * 10 + digit_val(d));
        assert(digit_val(d) == n % 10);
        assert(n / 10 * 10 + n % 10 == n) by {
            vstd::arithmetic::div_mod::lemma_fundamental_div_mod(n as int, 10);
        }
        assert(forall|i: int| 0 <= i < s.len() ==> is_digit(#[trigger] s[i])) by {
            assert(forall|i: int| 0 <= i < a.len() ==> s[i] == a[i]);
            assert(s[s.len() - 1] == d);
        }
    }
}

/// Reading one more digit multiplies the prefix value by ten and adds it.
pub proof fn lemma_dec_val_take_step(s: Seq<char>, i: int)
    requires
        0 <= i < s.len(),
    ensures
        dec_val(s.take(i + 1)) == dec_val(s.take(i)) * 10 + digit_val(s[i]),
{
    assert(s.take(i + 1).drop_last() =~= s.take(i));
    assert(s.take(i + 1).last() == s[i]);
}

/// The value of a digit string dominates the value of any of its prefixes.
pub proof fn lemma_dec_val_take_mono(s: Seq<char>, i: int)
    requires
        all_digits(s),
        0 <= i <= s.len(),
    ensures
        dec_val(s.take(i)) >= 0,
        dec_val(s) >= dec_val(s.take(i)),
    decreases s.len() - i,
{
    if i == s.len() {
        assert(s.take(i) =~= s);
        lemma_dec_val_nonneg(s);
    } else {
        lemma_dec_val_take_mono(s, i + 1);
        lemma_dec_val_take_step(s, i);
        lemma_dec_val_nonneg(s.take(i));
    }
}

/// A digit string never has a negative value.
pub proof fn lemma_dec_val_nonneg(s: Seq<char>)
    requires
        all_digits(s),
    ensures
        dec_val(s) >= 0,
    decreases s.len(),
{
    if s.len() > 0 {
        assert(all_digits(s.drop_last())) by {
            assert(forall|k: int| 0 <= k < s.drop_last().len() ==> s.drop_last()[k] == s[k]);
        }
        lemma_dec_val_nonneg(s.drop_last());
    }
}

// ---------------------------------------------------------------------------
// Lenient unsigned parsing
// ---------------------------------------------------------------------------

/// The digit-string part of [`parse_u32_spec`], applied after the optional
/// sign has been removed.
pub open spec fn parse_u32_spec_of(body: Seq<char>) -> Option<u32> {
    if body.len() > 0 && all_digits(body) && dec_val(body) <= u32::MAX {
        Some(dec_val(body) as u32)
    } else {
        None
    }
}

/// What parsing an unsigned 32-bit integer from text yields: an optional
/// leading `+`, then one or more decimal digits whose value fits in 32 bits;
/// anything else is rejected.
pub open spec fn parse_u32_spec(s: Seq<char>) -> Option<u32> {
    parse_u32_spec_of(
        if s.len() > 0 && s[0] == '+' {
            s.drop_first()
        } else {
            s
        },
    )
}

/// The parsed number, with parse failure degrading to zero.
pub open spec fn num_or_zero(s: Seq<char>) -> u32 {
    match parse_u32_spec(s) {
        Some(n) => n,
        None => 0,
    }
}

/// A digit string holds no separator: no character outside `0..=9`.
pub proof fn lemma_digits_no_sep(s: Seq<char>, c: char)
    requires
        all_digits(s),
        !is_digit(c),
    ensures
        !has_char(s, c),
{
    if has_char(s, c) {
        let i = choose|i: int| 0 <= i < s.len() && s[i] == c;
        assert(is_digit(s[i]));
    }
}

/// Parsing the canonical rendering of a number gives that number back.
pub proof fn lemma_parse_digits(n: nat)
    requires
        n <= u32::MAX,
    ensures
        parse_u32_spec(dec_digits(n)) == Some(n as u32),
        num_or_zero(dec_digits(n)) == n as u32,
{
    lemma_dec_digits_wf(n);
    let d = dec_digits(n);
    assert(is_digit(d[0]));
    assert(d[0] != '+');
    assert(parse_u32_spec(d) == parse_u32_spec_of(d));
}

/// Parse an unsigned 32-bit integer, accepting an optional leading `+` and
/// rejecting anything that is not a digit string or does not fit.
pub fn parse_u32_str(s: &str) -> (r: Option<u32>)
    ensures
        r == parse_u32_spec(s@),
{
    let n = s.unicode_len();
    let mut lo: usize = 0;
    if n > 0 && s.get_char(0) == '+' {
        lo = 1;
    }
    let ghost body = if s@.len() > 0 && s@[0] == '+' {
        s@.drop_first()
    } else {
        s@
    };
    assert(body =~= s@.subrange(lo as int, n as int));
    if lo >= n {
        assert(body.len() == 0);
        return None;
    }
    let mut acc: u32 = 0;
    let mut i: usize = lo;
    while i < n
        invariant
            n == s@.len(),
            lo <= i <= n,
            lo < n,
            body == (if s@.len() > 0 && s@[0] == '+' {
                s@.drop_first()
            } else {
                s@
            }),
            body == s@.subrange(lo as int, n as int),
            all_digits(body.take(i - lo)),
            acc == dec_val(body.take(i - lo)),
        decreases n - i,
    {
        let c = s.get_char(i);
        let u = c as u32;
        if u < 48 || u > 57 {
            assert(body[i - lo] == s@[i as int]);
            assert(!is_digit(body[i - lo]));
            assert(!all_digits(body));
            return None;
        }
        assert(is_digit(body[i - lo]));
        let d: u32 = u - 48;
        assert(d == digit_val(body[i - lo]));
        proof {
            lemma_dec_val_take_step(body, i - lo);
        }
        let acc10 = match acc.checked_mul(10) {
            Some(v) => v,
            None => {
                proof {
                    overflow_means_none(body, i - lo, acc as int * 10 + d);
                }
                return None;
            },
        };
        let acc2 = match acc10.checked_add(d) {
            Some(v) => v,
            None => {
                proof {
                    overflow_means_none(body, i - lo, acc as int * 10 + d);
                }
                return None;
            },
        };
        assert(all_digits(body.take(i - lo + 1))) by {
            assert(forall|k: int|
                0 <= k < i - lo ==> #[trigger] body.take(i - lo + 1)[k] == body.take(i - lo)[k]);
            assert(body.take(i - lo + 1)[i - lo] == body[i - lo]);
        }
        acc = acc2;
        i = i + 1;
    }
    assert(body.take(n - lo) =~= body);
    Some(acc)
}

/// If some digit prefix already exceeds `u32::MAX`, the whole string is
/// rejected: either a later character is not a digit, or the full value is
/// larger still.
proof fn overflow_means_none(body: Seq<char>, i: int, partial: int)
    requires
        0 <= i < body.len(),
        all_digits(body.take(i)),
        is_digit(body[i]),
        partial == dec_val(body.take(i)) * 10 + digit_val(body[i]),
        partial > u32::MAX,
    ensures
        parse_u32_spec_of(body) is None,
{
    if all_digits(body) {
        lemma_dec_val_take_step(body, i);
        lemma_dec_val_take_mono(body, i + 1);
        assert(dec_val(body) >= dec_val(body.take(i + 1)));
    }
}

/// The parsed number, with parse failure degrading to zero.
pub fn num_or_zero_str(s: &str) -> (n: u32)
    ensures
        n == num_or_zero(s@),
{
    match parse_u32_str(s) {
        Some(v) => v,
        None => 0,
    }
}

// ---------------------------------------------------------------------------
// Lines and whitespace tokens
// ---------------------------------------------------------------------------

/// Whether `c` has the Unicode white-space property, the set that
/// `char::is_whitespace` recognizes.
pub open spec fn is_ws(c: char) -> bool {
    let u = c as u32;
    u == 0x20 || (0x9 <= u && u <= 0xD) || u == 0x85 || u == 0xA0 || u == 0x1680 || (0x2000 <= u
        && u <= 0x200A) || u == 0x2028 || u == 0x2029 || u == 0x202F || u == 0x205F || u == 0x3000
}

/// Whether `c` is white space; mirrors [`is_ws`].
pub fn is_ws_char(c: char) -> (r: bool)
    ensures
        r == is_ws(c),
{
    let u = c as u32;
    u == 0x20 || (0x9 <= u && u <= 0xD) || u == 0x85 || u == 0xA0 || u == 0x1680 || (0x2000 <= u
        && u <= 0x200A) || u == 0x2028 || u == 0x2029 || u == 0x202F || u == 0x205F || u == 0x3000
}

/// A line with a trailing carriage return removed.
pub open spec fn strip_cr(l: Seq<char>) -> Seq<char> {
    if l.len() > 0 && l.last() == '\r' {
        l.drop_last()
    } else {
        l
    }
}

/// The lines of `s`: segments split at `\n`, a `\r` before the `\n` stripped,
/// and no final empty line when `s` ends with a line break.
pub open spec fn spec_lines(s: Seq<char>) -> Seq<Seq<char>>
    decreases s.len(),
{
    match find_char(s, '\n') {
        Some(i) => if 0 <= i < s.len() {
            // the bound always holds of a found index; the test serves the
            // termination check
            seq![strip_cr(s.take(i))] + spec_lines(s.skip(i + 1))
        } else {
            Seq::<Seq<char>>::empty()
        },
        None => if s.len() == 0 {
            Seq::<Seq<char>>::empty()
        } else {
            seq![s]
        },
    }
}

/// How many white-space characters `s` begins with.
pub open spec fn count_leading_ws(s: Seq<char>) -> int
    decreases s.len(),
{
    if s.len() > 0 && is_ws(s[0]) {
        1 + count_leading_ws(s.drop_first())
    } else {
        0
    }
}

/// How many non-white-space characters `s` begins with.
pub open spec fn count_leading_non_ws(s: Seq<char>) -> int
    decreases s.len(),
{
    if s.len() > 0 && !is_ws(s[0]) {
        1 + count_leading_non_ws(s.drop_first())
    } else {
        0
    }
}

/// The first white-space-delimited token of `s`, empty when there is none.
pub open spec fn first_ws_token(s: Seq<char>) -> Seq<char> {
    let t = s.skip(count_leading_ws(s));
    t.take(count_leading_non_ws(t))
}

/// `count_leading_ws` counts up to the first non-white-space character.
pub proof fn lemma_count_leading_ws(s: Seq<char>)
    ensures
        0 <= count_leading_ws(s) <= s.len(),
        forall|j: int| 0 <= j < count_leading_ws(s) ==> is_ws(s[j]),
        count_leading_ws(s) < s.len() ==> !is_ws(s[count_leading_ws(s)]),
    decreases s.len(),
{
    if s.len() > 0 && is_ws(s[0]) {
        let t = s.drop_first();
        lemma_count_leading_ws(t);
        assert forall|j: int| 0 <= j < count_leading_ws(s) implies is_ws(s[j]) by {
            if j > 0 {
                assert(s[j] == t[j - 1]);
            }
        }
        if count_leading_ws(s) < s.len() {
            assert(s[count_leading_ws(s)] == t[count_leading_ws(t)]);
        }
    }
}

/// `count_leading_non_ws` counts up to the first white-space character.
pub proof fn lemma_count_leading_non_ws(s: Seq<char>)
    ensures
        0 <= count_leading_non_ws(s) <= s.len(),
        forall|j: int| 0 <= j < count_leading_non_ws(s) ==> !is_ws(s[j]),
        count_leading_non_ws(s) < s.len() ==> is_ws(s[count_leading_non_ws(s)]),
    decreases s.len(),
{
    if s.len() > 0 && !is_ws(s[0]) {
        let t = s.drop_first();
        lemma_count_leading_non_ws(t);
        assert forall|j: int| 0 <= j < count_leading_non_ws(s) implies !is_ws(s[j]) by {
            if j > 0 {
                assert(s[j] == t[j - 1]);
            }
        }
        if count_leading_non_ws(s) < s.len() {
            assert(s[count_leading_non_ws(s)] == t[count_leading_non_ws(t)]);
        }
    }
}

/// The first white-space-delimited token of `s`, as a borrowed fragment.
pub fn first_ws_token_str<'a>(s: &'a str) -> (r: &'a str)
    ensures
        r@ == first_ws_token(s@),
{
    let n = s.unicode_len();
    let mut i: usize = 0;
    while i < n && is_ws_char(s.get_char(i))
        invariant
            n == s@.len(),
            i <= n,
            forall|j: int| 0 <= j < i ==> is_ws(s@[j]),
        decreases n - i,
    {
        i = i + 1;
    }
    proof {
        lemma_count_leading_ws(s@);
        assert(count_leading_ws(s@) == i);
    }
    let ghost t = s@.skip(i as int);
    let mut j: usize = i;
    while j < n && !is_ws_char(s.get_char(j))
        invariant
            n == s@.len(),
            i <= j <= n,
            t == s@.skip(i as int),
            forall|k: int| i <= k < j ==> !is_ws(s@[k]),
        decreases n - j,
    {
        j = j + 1;
    }
    proof {
        lemma_count_leading_non_ws(t);
        let cnt = count_leading_non_ws(t);
        assert(t.len() == n - i);
        assert(forall|k: int| 0 <= k < t.len() ==> t[k] == s@[i + k]);
        if cnt < j - i {
            assert(t[cnt] == s@[i + cnt]);
            assert(!is_ws(s@[i + cnt]));
            assert(false);
        }
        if cnt > j - i {
            assert(j < n);
            assert(!is_ws(t[j - i]));
            assert(t[j - i] == s@[j as int]);
            assert(false);
        }
        assert(s@.subrange(i as int, j as int) =~= t.take(j - i));
    }
    s.substring_char(i, j)
}

// ---------------------------------------------------------------------------
// Rendering numbers as text
// ---------------------------------------------------------------------------

/// The one-character text for a digit value.
pub fn digit_str(d: u32) -> (r: &'static str)
    requires
        d < 10,
    ensures
        r@ == seq![digit_char(d as int)],
{
    let r: &'static str = if d == 0 {
        "0"
    } else if d == 1 {
        "1"
    } else if d == 2 {
        "2"
    } else if d == 3 {
        "3"
    } else if d == 4 {
        "4"
    } else if d == 5 {
        "5"
    } else if d == 6 {
        "6"
    } else if d == 7 {
        "7"
    } else if d == 8 {
        "8"
    } else {
        "9"
    };
    proof {
        reveal_strlit("0");
        reveal_strlit("1");
        reveal_strlit("2");
        reveal_strlit("3");
        reveal_strlit("4");
        reveal_strlit("5");
        reveal_strlit("6");
        reveal_strlit("7");
        reveal_strlit("8");
        reveal_strlit("9");
        assert(r@ =~= seq![digit_char(d as int)]);
    }
    r
}

/// Append the canonical base-10 rendering of `n` to `out`.
pub fn append_u32(out: &mut String, n: u32)
    ensures
        final(out)@ == old(out)@ + dec_digits(n as nat),
    decreases n,
{
    if n >= 10 {
        append_u32(out, n / 10);
        out.append(digit_str(n % 10));
        proof {
            assert((n / 10) as nat == n as nat / 10);
            assert((n % 10) as int == (n as nat % 10) as int);
            assert(old(out)@ + dec_digits(n as nat / 10) + seq![digit_char((n as nat % 10) as int)]
                =~= old(out)@ + dec_digits(n as nat));
        }
    } else {
        out.append(digit_str(n));
        proof {
            assert(old(out)@ + seq![digit_char(n as int)] =~= old(out)@ + dec_digits(n as nat));
        }
    }
}

} // verus!
