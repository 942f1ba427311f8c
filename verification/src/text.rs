//! Character-level helpers for observed Minecraft identifiers and block-state
//! property values. Every helper is specified over the `Seq<char>` view of
//! its arguments.

use vstd::prelude::*;
use vstd::string::*;

verus! {

/// `s` ends with `suffix`.
pub open spec fn seq_ends_with(s: Seq<char>, suffix: Seq<char>) -> bool {
    suffix.len() <= s.len() && s.subrange(s.len() - suffix.len(), s.len() as int) == suffix
}

/// `s` starts with `prefix`.
pub open spec fn seq_starts_with(s: Seq<char>, prefix: Seq<char>) -> bool {
    prefix.len() <= s.len() && s.subrange(0, prefix.len() as int) == prefix
}

/// `s` with `prefix` removed when it is present, `s` otherwise.
pub open spec fn seq_strip_prefix_or_self(s: Seq<char>, prefix: Seq<char>) -> Seq<char> {
    if seq_starts_with(s, prefix) {
        s.subrange(prefix.len() as int, s.len() as int)
    } else {
        s
    }
}

/// The strict lexicographic order on character sequences, comparing
/// characters by scalar value.
pub open spec fn seq_lt(a: Seq<char>, b: Seq<char>) -> bool
    decreases a.len(),
{
    if a.len() == 0 {
        b.len() > 0
    } else if b.len() == 0 {
        false
    } else if (a[0] as int) < (b[0] as int) {
        true
    } else if a[0] == b[0] {
        seq_lt(a.drop_first(), b.drop_first())
    } else {
        false
    }
}

/// The value Rust's `bool::from_str` gives for `s`.
pub open spec fn spec_parse_bool(s: Seq<char>) -> Option<bool> {
    if s == "true"@ {
        Some(true)
    } else if s == "false"@ {
        Some(false)
    } else {
        None
    }
}

pub open spec fn is_digit(c: char) -> bool {
    '0' <= c && c <= '9'
}

pub open spec fn digit_value(c: char) -> nat {
    ((c as u32) - ('0' as u32)) as nat
}

/// Decimal value of a digit sequence (most significant digit first).
pub open spec fn decimal_value(s: Seq<char>) -> nat
    decreases s.len(),
{
    if s.len() == 0 {
        0
    } else {
        decimal_value(s.drop_last()) * 10 + digit_value(s.last())
    }
}

pub open spec fn all_digits(s: Seq<char>) -> bool {
    forall|i: int| 0 <= i < s.len() ==> is_digit(#[trigger] s[i])
}

/// The value Rust's `u8::from_str` gives for `s`: an optional `+`, then at
/// least one decimal digit, with a value of at most 255.
pub open spec fn spec_parse_u8(s: Seq<char>) -> Option<u8> {
    let digits = if s.len() > 0 && s[0] == '+' {
        s.drop_first()
    } else {
        s
    };
    if digits.len() > 0 && all_digits(digits) && decimal_value(digits) <= 255 {
        Some(decimal_value(digits) as u8)
    } else {
        None
    }
}

pub open spec fn digit_char(d: nat) -> char {
    if d == 0 {
        '0'
    } else if d == 1 {
        '1'
    } else if d == 2 {
        '2'
    } else if d == 3 {
        '3'
    } else if d == 4 {
        '4'
    } else if d == 5 {
        '5'
    } else if d == 6 {
        '6'
    } else if d == 7 {
        '7'
    } else if d == 8 {
        '8'
    } else {
        '9'
    }
}

/// Decimal rendering of `n` without leading zeros, as `to_string` prints it.
pub open spec fn spec_decimal(n: nat) -> Seq<char>
    decreases n,
{
    if n < 10 {
        seq![digit_char(n)]
    } else {
        spec_decimal(n / 10).push(digit_char(n % 10))
    }
}

/// Rendering of a `bool` as `to_string` prints it.
pub open spec fn spec_bool_text(b: bool) -> Seq<char> {
    if b {
        "true"@
    } else {
        "false"@
    }
}

/// Character equality of two strings.
pub fn str_eq(a: &str, b: &str) -> (r: bool)
    ensures
        r == (a@ == b@),
{
    let n = a.unicode_len();
    let m = b.unicode_len();
    if n != m {
        return false;
    }
    let mut i: usize = 0;
    while i < n
        invariant
            n == a@.len(),
            m == b@.len(),
            n == m,
            i <= n,
            forall|j: int| 0 <= j < i ==> a@[j] == b@[j],
        decreases n - i,
    {
        if a.get_char(i) != b.get_char(i) {
            return false;
        }
        i = i + 1;
    }
    assert(a@ =~= b@);
    true
}

/// Whether `s` ends with `suffix`.
pub fn ends_with(s: &str, suffix: &str) -> (r: bool)
    ensures
        r == seq_ends_with(s@, suffix@),
{
    let n = s.unicode_len();
    let m = suffix.unicode_len();
    if m > n {
        return false;
    }
    let start = n - m;
    let mut i: usize = 0;
    while i < m
        invariant
            n == s@.len(),
            m == suffix@.len(),
            m <= n,
            start == n - m,
            i <= m,
            forall|j: int| 0 <= j < i ==> s@[start + j] == suffix@[j],
        decreases m - i,
    {
        if s.get_char(start + i) != suffix.get_char(i) {
            assert(s@.subrange(start as int, n as int)[i as int] != suffix@[i as int]);
            return false;
        }
        i = i + 1;
    }
    assert(s@.subrange(start as int, n as int) =~= suffix@);
    true
}

/// Whether `s` starts with `prefix`.
pub fn starts_with(s: &str, prefix: &str) -> (r: bool)
    ensures
        r == seq_starts_with(s@, prefix@),
{
    let n = s.unicode_len();
    let m = prefix.unicode_len();
    if m > n {
        return false;
    }
    let mut i: usize = 0;
    while i < m
        invariant
            n == s@.len(),
            m == prefix@.len(),
            m <= n,
            i <= m,
            forall|j: int| 0 <= j < i ==> s@[j] == prefix@[j],
        decreases m - i,
    {
        if s.get_char(i) != prefix.get_char(i) {
            assert(s@.subrange(0, m as int)[i as int] != prefix@[i as int]);
            return false;
        }
        i = i + 1;
    }
    assert(s@.subrange(0, m as int) =~= prefix@);
    true
}

/// `s` with a leading `prefix` removed, or `s` itself when the prefix is absent.
pub fn strip_prefix_or_self<'a>(s: &'a str, prefix: &str) -> (r: &'a str)
    ensures
        r@ == seq_strip_prefix_or_self(s@, prefix@),
{
    if starts_with(s, prefix) {
        let n = s.unicode_len();
        let m = prefix.unicode_len();
        s.substring_char(m, n)
    } else {
        s
    }
}

/// `s` with every leading repetition of a non-empty `prefix` removed.
pub open spec fn seq_trim_prefix(s: Seq<char>, prefix: Seq<char>) -> Seq<char>
    decreases s.len(),
{
    if prefix.len() > 0 && seq_starts_with(s, prefix) {
        seq_trim_prefix(s.subrange(prefix.len() as int, s.len() as int), prefix)
    } else {
        s
    }
}

/// Removes every leading repetition of `prefix` (Rust's
/// `trim_start_matches` with a string pattern).
pub fn trim_prefix<'a>(s: &'a str, prefix: &str) -> (r: &'a str)
    ensures
        r@ == seq_trim_prefix(s@, prefix@),
    decreases s@.len(),
{
    if prefix.unicode_len() > 0 && starts_with(s, prefix) {
        let n = s.unicode_len();
        let m = prefix.unicode_len();
        trim_prefix(s.substring_char(m, n), prefix)
    } else {
        s
    }
}

proof fn lemma_seq_lt_irreflexive(a: Seq<char>)
    ensures
        !seq_lt(a, a),
    decreases a.len(),
{
    if a.len() > 0 {
        lemma_seq_lt_irreflexive(a.drop_first());
    }
}

/// The lexicographic order is transitive.
pub proof fn lemma_seq_lt_transitive(a: Seq<char>, b: Seq<char>, c: Seq<char>)
    requires
        seq_lt(a, b),
        seq_lt(b, c),
    ensures
        seq_lt(a, c),
    decreases a.len(),
{
    if a.len() > 0 && b.len() > 0 && c.len() > 0 && a[0] == b[0] && b[0] == c[0] {
        lemma_seq_lt_transitive(a.drop_first(), b.drop_first(), c.drop_first());
    }
}

/// Exactly one of `a < b`, `a == b`, `b < a` holds.
pub proof fn lemma_seq_lt_total(a: Seq<char>, b: Seq<char>)
    ensures
        seq_lt(a, b) || a == b || seq_lt(b, a),
        !(seq_lt(a, b) && seq_lt(b, a)),
        seq_lt(a, b) ==> a != b,
    decreases a.len(),
{
    lemma_seq_lt_irreflexive(a);
    if a.len() > 0 && b.len() > 0 {
        if a[0] == b[0] {
            lemma_seq_lt_total(a.drop_first(), b.drop_first());
            if a.drop_first() == b.drop_first() {
                assert(a =~= seq![a[0]] + a.drop_first());
                assert(b =~= seq![b[0]] + b.drop_first());
            }
        } else {
            assert((a[0] as int) != (b[0] as int));
        }
    } else if a.len() == 0 && b.len() == 0 {
        assert(a =~= b);
    }
}

/// Lexicographic comparison of two strings.
pub fn str_lt(a: &str, b: &str) -> (r: bool)
    ensures
        r == seq_lt(a@, b@),
{
    let n = a.unicode_len();
    let m = b.unicode_len();
    let mut i: usize = 0;
    assert(a@.skip(0) =~= a@);
    assert(b@.skip(0) =~= b@);
    while i < n && i < m
        invariant
            n == a@.len(),
            m == b@.len(),
            i <= n,
            i <= m,
            a@.subrange(0, i as int) == b@.subrange(0, i as int),
            seq_lt(a@, b@) == seq_lt(a@.skip(i as int), b@.skip(i as int)),
        decreases n - i,
    {
        let ca = a.get_char(i);
        let cb = b.get_char(i);
        assert(a@.skip(i as int)[0] == ca);
        assert(b@.skip(i as int)[0] == cb);
        if (ca as u32) < (cb as u32) {
            return true;
        }
        if ca != cb {
            return false;
        }
        assert(a@.skip(i as int).drop_first() =~= a@.skip(i + 1));
        assert(b@.skip(i as int).drop_first() =~= b@.skip(i + 1));
        assert(a@.subrange(0, i + 1) =~= a@.subrange(0, i as int).push(ca));
        assert(b@.subrange(0, i + 1) =~= b@.subrange(0, i as int).push(cb));
        i = i + 1;
    }
    assert(a@.skip(i as int).len() == n - i);
    assert(b@.skip(i as int).len() == m - i);
    i >= n && i < m
}

/// Rust's `bool::from_str`, returning `None` for text it rejects.
pub fn parse_bool(s: &str) -> (r: Option<bool>)
    ensures
        r == spec_parse_bool(s@),
{
    if str_eq(s, "true") {
        Some(true)
    } else if str_eq(s, "false") {
        Some(false)
    } else {
        None
    }
}

proof fn lemma_decimal_push(s: Seq<char>, c: char)
    ensures
        decimal_value(s.push(c)) == decimal_value(s) * 10 + digit_value(c),
{
    assert(s.push(c).drop_last() =~= s);
}

/// Rust's `u8::from_str`, returning `None` for text it rejects.
pub fn parse_u8(s: &str) -> (r: Option<u8>)
    ensures
        r == spec_parse_u8(s@),
{
    let n = s.unicode_len();
    let mut start: usize = 0;
    if n > 0 && s.get_char(0) == '+' {
        start = 1;
    }
    let ghost digits = if s@.len() > 0 && s@[0] == '+' {
        s@.drop_first()
    } else {
        s@
    };
    assert(digits =~= s@.skip(start as int));
    if start >= n {
        return None;
    }
    let mut value: u32 = 0;
    let mut i: usize = start;
    while i < n
        invariant
            n == s@.len(),
            start <= i <= n,
            start <= 1,
            digits == s@.skip(start as int),
            spec_parse_u8(s@) == (if digits.len() > 0 && all_digits(digits) && decimal_value(digits)
                <= 255 {
                Some(decimal_value(digits) as u8)
            } else {
                None
            }),
            all_digits(s@.subrange(start as int, i as int)),
            value as nat == decimal_value(s@.subrange(start as int, i as int)),
            value <= 255,
        decreases n - i,
    {
        let c = s.get_char(i);
        assert(s@.subrange(start as int, i + 1) =~= s@.subrange(start as int, i as int).push(c));
        if !('0' <= c && c <= '9') {
            assert(digits[i - start] == c);
            assert(!all_digits(digits));
            return None;
        }
        proof {
            lemma_decimal_push(s@.subrange(start as int, i as int), c);
        }
        let d = (c as u32) - ('0' as u32);
        let next = value * 10 + d;
        if next > 255 {
            proof {
                let pre = s@.subrange(start as int, i + 1);
                assert(decimal_value(pre) > 255);
                assert forall|k: int| i + 1 <= k <= n implies decimal_value(
                    #[trigger] s@.subrange(start as int, k),
                ) > 255 by {
                    lemma_decimal_grows(s@, start as int, i + 1, k);
                }
                assert(digits =~= s@.subrange(start as int, n as int));
                if all_digits(digits) {
                    assert(decimal_value(s@.subrange(start as int, n as int)) > 255);
                }
            }
            return None;
        }
        value = next;
        i = i + 1;
    }
    assert(digits =~= s@.subrange(start as int, n as int));
    Some(value as u8)
}

proof fn lemma_decimal_grows(s: Seq<char>, start: int, lo: int, hi: int)
    requires
        0 <= start <= lo <= hi <= s.len(),
        decimal_value(s.subrange(start, lo)) > 255,
        all_digits(s.subrange(start, hi)) || true,
    ensures
        decimal_value(s.subrange(start, hi)) > 255,
    decreases hi - lo,
{
    if hi > lo {
        lemma_decimal_grows(s, start, lo, hi - 1);
        assert(s.subrange(start, hi) =~= s.subrange(start, hi - 1).push(s[hi - 1]));
        lemma_decimal_push(s.subrange(start, hi - 1), s[hi - 1]);
    }
}

fn digit_text(d: u8) -> (r: &'static str)
    requires
        d < 10,
    ensures
        r@ == seq![digit_char(d as nat)],
{
    proof {
        reveal_strlit("0");
        reveal_strlit("1");
        reveal_strlit("2");
        reveal_strlit("3");
        reveal_strlit("4");
        reveal_strlit("5");
        reveal_strlit("6");
        reveal_strlit("7");
        reveal_strlit("8");
        reveal_strlit("9");
    }
    let r = match d {
        0 => "0",
        1 => "1",
        2 => "2",
        3 => "3",
        4 => "4",
        5 => "5",
        6 => "6",
        7 => "7",
        8 => "8",
        _ => "9",
    };
    assert(r@ =~= seq![digit_char(d as nat)]);
    r
}

/// Decimal rendering of a `u8`, as `to_string` prints it.
pub fn u8_to_string(v: u8) -> (r: String)
    ensures
        r@ == spec_decimal(v as nat),
{
    let mut out = String::new();
    if v >= 100 {
        out.append(digit_text(v / 100));
        out.append(digit_text((v / 10) % 10));
        out.append(digit_text(v % 10));
        assert(spec_decimal((v / 100) as nat) == seq![digit_char((v / 100) as nat)]);
        assert(spec_decimal((v / 10) as nat) == spec_decimal((v / 100) as nat).push(
            digit_char(((v / 10) % 10) as nat),
        ));
        assert(spec_decimal(v as nat) == spec_decimal((v / 10) as nat).push(
            digit_char((v % 10) as nat),
        ));
    } else if v >= 10 {
        out.append(digit_text(v / 10));
        out.append(digit_text(v % 10));
        assert(spec_decimal((v / 10) as nat) == seq![digit_char((v / 10) as nat)]);
        assert(spec_decimal(v as nat) == spec_decimal((v / 10) as nat).push(
            digit_char((v % 10) as nat),
        ));
    } else {
        out.append(digit_text(v));
    }
    assert(out@ =~= spec_decimal(v as nat));
    out
}

/// Rendering of a `bool`, as `to_string` prints it.
pub fn bool_to_string(b: bool) -> (r: String)
    ensures
        r@ == spec_bool_text(b),
{
    if b {
        "true".to_owned()
    } else {
        "false".to_owned()
    }
}

/// Decimal rendering of a `u64`, as `to_string` prints it.
pub fn u64_to_string(v: u64) -> (r: String)
    ensures
        r@ == spec_decimal(v as nat),
    decreases v,
{
    if v < 10 {
        let mut out = String::new();
        out.append(digit_text(v as u8));
        assert(out@ =~= spec_decimal(v as nat));
        out
    } else {
        let mut out = u64_to_string(v / 10);
        out.append(digit_text((v % 10) as u8));
        assert(out@ =~= spec_decimal(v as nat));
        out
    }
}

/// Decimal rendering of an `i32`, with a leading minus when negative.
pub open spec fn spec_signed_decimal(v: i32) -> Seq<char> {
    if v < 0 {
        seq!['-'] + spec_decimal((-v) as nat)
    } else {
        spec_decimal(v as nat)
    }
}

/// Decimal rendering of an `i32`, as `to_string` prints it.
pub fn i32_to_string(v: i32) -> (r: String)
    ensures
        r@ == spec_signed_decimal(v),
{
    if v < 0 {
        let magnitude: u64 = (0i64 - v as i64) as u64;
        let mut out = String::new();
        out.append("-");
        out.append(u64_to_string(magnitude).as_str());
        proof {
            reveal_strlit("-");
        }
        assert(out@ =~= spec_signed_decimal(v));
        out
    } else {
        u64_to_string(v as u64)
    }
}

/// The debug rendering of a position: `Pos { x: 1, y: 2, z: 3 }`.
pub open spec fn pos_to_string_spec(p: crate::world::Pos) -> Seq<char> {
    "Pos { x: "@ + spec_signed_decimal(p.x) + ", y: "@ + spec_signed_decimal(p.y) + ", z: "@
        + spec_signed_decimal(p.z) + " }"@
}

/// The debug rendering of a position, as `{:?}` prints it.
pub fn pos_to_string(p: crate::world::Pos) -> (r: String)
    ensures
        r@ == pos_to_string_spec(p),
{
    let mut out = String::new();
    out.append("Pos { x: ");
    out.append(i32_to_string(p.x).as_str());
    out.append(", y: ");
    out.append(i32_to_string(p.y).as_str());
    out.append(", z: ");
    out.append(i32_to_string(p.z).as_str());
    out.append(" }");
    out
}

/// `pattern` occurs in `s`.
pub open spec fn seq_contains_text(s: Seq<char>, pattern: Seq<char>) -> bool {
    exists|i: int| 0 <= i && i + pattern.len() <= s.len() && #[trigger] s.subrange(i, i + pattern.len()) == pattern
}

/// Whether `pattern` occurs in `s` (Rust's `str::contains` with a string
/// pattern).
pub fn contains_text(s: &str, pattern: &str) -> (r: bool)
    ensures
        r == seq_contains_text(s@, pattern@),
{
    let n = s.unicode_len();
    let m = pattern.unicode_len();
    if m > n {
        proof {
            assert forall|i: int| 0 <= i && i + m <= n implies #[trigger] s@.subrange(i, i + m) != pattern@ by {}
        }
        return false;
    }
    if m == 0 {
        assert(s@.subrange(0int, 0int + pattern@.len()) =~= pattern@);
        return true;
    }
    let mut i: usize = 0;
    while i <= n - m
        invariant
            n == s@.len(),
            m == pattern@.len(),
            0 < m <= n,
            i <= n - m + 1,
            forall|k: int| 0 <= k < i ==> #[trigger] s@.subrange(k, k + m) != pattern@,
        decreases n - m + 1 - i,
    {
        let mut j: usize = 0;
        let mut same = true;
        while j < m
            invariant
                n == s@.len(),
                m == pattern@.len(),
                i + m <= n,
                j <= m,
                same ==> forall|x: int| 0 <= x < j ==> s@[i + x] == pattern@[x],
                !same ==> s@.subrange(i as int, i + m) != pattern@,
            decreases m - j,
        {
            if s.get_char(i + j) != pattern.get_char(j) {
                assert(s@.subrange(i as int, i + m)[j as int] != pattern@[j as int]);
                same = false;
            }
            j = j + 1;
        }
        if same {
            assert(s@.subrange(i as int, i + m) =~= pattern@);
            return true;
        }
        i = i + 1;
    }
    false
}

} // verus!
