//! Character-sequence model of the textual forms, and the executable
//! helpers that split, compare and build them.
//!
//! Every textual value is modelled by its sequence of `char`s. The spec
//! functions here describe the splitting, case folding and decimal
//! conventions that the attribute grammars are written in.

use vstd::prelude::*;

verus! {

// ---------------------------------------------------------------------------
// Searching and splitting
// ---------------------------------------------------------------------------

/// Index of the first `c` in `s` at or after `k`.
pub open spec fn find_from(s: Seq<char>, c: char, k: int) -> Option<int>
    decreases s.len() - k,
{
    if k < 0 || k >= s.len() {
        None
    } else if s[k] == c {
        Some(k)
    } else {
        find_from(s, c, k + 1)
    }
}

/// Index of the first `c` in `s`.
pub open spec fn find(s: Seq<char>, c: char) -> Option<int> {
    find_from(s, c, 0)
}

/// `s` holds no `c`.
pub open spec fn has_no(s: Seq<char>, c: char) -> bool {
    forall|i: int| 0 <= i < s.len() ==> s[i] != c
}

/// The pieces of `s` between the occurrences of `c`, as `str::split` yields
/// them: always at least one piece, empty pieces kept.
pub open spec fn split(s: Seq<char>, c: char) -> Seq<Seq<char>>
    decreases s.len(),
{
    match find(s, c) {
        None => seq![s],
        Some(i) => if 0 <= i < s.len() {
            seq![s.take(i)] + split(s.skip(i + 1), c)
        } else {
            seq![s]
        },
    }
}

/// At most `n` pieces, the last one holding the rest, as `str::splitn`.
pub open spec fn splitn(s: Seq<char>, n: nat, c: char) -> Seq<Seq<char>>
    decreases n,
{
    if n == 0 {
        seq![]
    } else if n == 1 {
        seq![s]
    } else {
        match find(s, c) {
            None => seq![s],
            Some(i) => seq![s.take(i)] + splitn(s.skip(i + 1), (n - 1) as nat, c),
        }
    }
}

/// The text before and after the first `c`, as `str::split_once`.
pub open spec fn split_once(s: Seq<char>, c: char) -> Option<(Seq<char>, Seq<char>)> {
    match find(s, c) {
        None => None,
        Some(i) => Some((s.take(i), s.skip(i + 1))),
    }
}

/// The pieces joined with `c` between consecutive pieces.
pub open spec fn join(p: Seq<Seq<char>>, c: char) -> Seq<char>
    decreases p.len(),
{
    if p.len() == 0 {
        seq![]
    } else if p.len() == 1 {
        p[0]
    } else {
        p[0] + seq![c] + join(p.drop_first(), c)
    }
}

/// `s` without its trailing run of `c`, as `str::trim_end_matches`.
pub open spec fn trim_end(s: Seq<char>, c: char) -> Seq<char>
    decreases s.len(),
{
    if s.len() > 0 && s.last() == c {
        trim_end(s.drop_last(), c)
    } else {
        s
    }
}

/// `s` without the prefix `p`, when `s` starts with `p`.
pub open spec fn strip_prefix(s: Seq<char>, p: Seq<char>) -> Option<Seq<char>> {
    if p.len() <= s.len() && s.take(p.len() as int) == p {
        Some(s.skip(p.len() as int))
    } else {
        None
    }
}

pub proof fn lemma_find_from(s: Seq<char>, c: char, k: int)
    requires
        0 <= k,
    ensures
        find_from(s, c, k) matches Some(i) ==> k <= i < s.len() && s[i] == c && (forall|j: int|
            k <= j < i ==> s[j] != c),
        find_from(s, c, k) is None ==> (forall|j: int| k <= j < s.len() ==> s[j] != c),
    decreases s.len() - k,
{
    if k < s.len() && s[k] != c {
        lemma_find_from(s, c, k + 1);
    }
}

/// The first occurrence is the one that `find` reports.
pub proof fn lemma_find_is(s: Seq<char>, c: char, i: int)
    requires
        0 <= i < s.len(),
        s[i] == c,
        forall|j: int| 0 <= j < i ==> s[j] != c,
    ensures
        find(s, c) == Some(i),
{
    lemma_find_from(s, c, 0);
}

pub proof fn lemma_find_none(s: Seq<char>, c: char)
    requires
        has_no(s, c),
    ensures
        find(s, c) is None,
{
    lemma_find_from(s, c, 0);
}

pub proof fn lemma_find(s: Seq<char>, c: char)
    ensures
        find(s, c) matches Some(i) ==> 0 <= i < s.len() && s[i] == c && (forall|j: int|
            0 <= j < i ==> s[j] != c),
        find(s, c) is None ==> has_no(s, c),
{
    lemma_find_from(s, c, 0);
}

/// A piece without separators splits into itself.
pub proof fn lemma_split_single(s: Seq<char>, c: char)
    requires
        has_no(s, c),
    ensures
        split(s, c) == seq![s],
        splitn(s, 2, c) == seq![s],
        splitn(s, 3, c) == seq![s],
        split_once(s, c) is None,
{
    lemma_find_none(s, c);
}

/// Splitting `a c r`, where `a` holds no `c`, yields `a` then the pieces of `r`.
pub proof fn lemma_split_cons(a: Seq<char>, c: char, r: Seq<char>)
    requires
        has_no(a, c),
    ensures
        split(a + seq![c] + r, c) == seq![a] + split(r, c),
        split_once(a + seq![c] + r, c) == Some((a, r)),
        forall|n: nat| n >= 2 ==> #[trigger] splitn(a + seq![c] + r, n, c) == seq![a] + splitn(
            r,
            (n - 1) as nat,
            c,
        ),
{
    let s = a + seq![c] + r;
    lemma_find_is(s, c, a.len() as int);
    assert(s.take(a.len() as int) =~= a);
    assert(s.skip(a.len() as int + 1) =~= r);
}

/// Splitting a join of separator-free pieces gives the pieces back.
pub proof fn lemma_split_join(p: Seq<Seq<char>>, c: char)
    requires
        p.len() > 0,
        forall|i: int| 0 <= i < p.len() ==> has_no(#[trigger] p[i], c),
    ensures
        split(join(p, c), c) == p,
    decreases p.len(),
{
    if p.len() == 1 {
        lemma_split_single(p[0], c);
        assert(seq![p[0]] =~= p);
    } else {
        let rest = p.drop_first();
        assert forall|i: int| 0 <= i < rest.len() implies has_no(#[trigger] rest[i], c) by {
            assert(rest[i] == p[i + 1]);
        }
        lemma_split_join(rest, c);
        lemma_split_cons(p[0], c, join(rest, c));
        assert(seq![p[0]] + rest =~= p);
    }
}

pub proof fn lemma_split_len(s: Seq<char>, c: char)
    ensures
        split(s, c).len() >= 1,
    decreases s.len(),
{
    lemma_find(s, c);
    if let Some(i) = find(s, c) {
        lemma_split_len(s.skip(i + 1), c);
    }
}

pub proof fn lemma_splitn_len(s: Seq<char>, n: nat, c: char)
    ensures
        n >= 1 ==> splitn(s, n, c).len() >= 1,
        splitn(s, n, c).len() <= n,
    decreases n,
{
    if n >= 2 {
        lemma_find(s, c);
        if let Some(i) = find(s, c) {
            lemma_splitn_len(s.skip(i + 1), (n - 1) as nat, c);
        }
    }
}

/// Joining one more piece appends the separator and the piece.
pub proof fn lemma_join_push(p: Seq<Seq<char>>, x: Seq<char>, c: char)
    requires
        p.len() > 0,
    ensures
        join(p.push(x), c) == join(p, c) + seq![c] + x,
    decreases p.len(),
{
    if p.len() == 1 {
        assert(p.push(x).drop_first() =~= seq![x]);
        assert(join(seq![x], c) == x);
    } else {
        assert(p.push(x).drop_first() =~= p.drop_first().push(x));
        lemma_join_push(p.drop_first(), x, c);
    }
}

/// A join holds no `d` when its pieces hold none and `d` is not the separator.
pub proof fn lemma_join_has_no(p: Seq<Seq<char>>, c: char, d: char)
    requires
        c != d,
        forall|i: int| 0 <= i < p.len() ==> has_no(#[trigger] p[i], d),
    ensures
        has_no(join(p, c), d),
    decreases p.len(),
{
    if p.len() > 1 {
        let rest = p.drop_first();
        assert forall|i: int| 0 <= i < rest.len() implies has_no(#[trigger] rest[i], d) by {
            assert(rest[i] == p[i + 1]);
        }
        lemma_join_has_no(rest, c, d);
        lemma_has_no_concat(p[0], seq![c], d);
        lemma_has_no_concat(p[0] + seq![c], join(rest, c), d);
    } else if p.len() == 1 {
        assert(has_no(p[0], d));
    }
}

pub proof fn lemma_has_no_concat(a: Seq<char>, b: Seq<char>, c: char)
    ensures
        has_no(a + b, c) <==> has_no(a, c) && has_no(b, c),
{
    if has_no(a + b, c) {
        assert forall|i: int| 0 <= i < b.len() implies b[i] != c by {
            assert((a + b)[a.len() + i] == b[i]);
        }
        assert forall|i: int| 0 <= i < a.len() implies a[i] != c by {
            assert((a + b)[i] == a[i]);
        }
    }
}

// ---------------------------------------------------------------------------
// ASCII case folding
// ---------------------------------------------------------------------------

/// ASCII upper-casing of one character; every other character is kept.
pub open spec fn upper_char(c: char) -> char {
    if 'a' <= c && c <= 'z' {
        ((c as int) - 32) as char
    } else {
        c
    }
}

/// ASCII lower-casing of one character; every other character is kept.
pub open spec fn lower_char(c: char) -> char {
    if 'A' <= c && c <= 'Z' {
        ((c as int) + 32) as char
    } else {
        c
    }
}

pub open spec fn upper(s: Seq<char>) -> Seq<char> {
    Seq::new(s.len(), |i: int| upper_char(s[i]))
}

pub open spec fn lower(s: Seq<char>) -> Seq<char> {
    Seq::new(s.len(), |i: int| lower_char(s[i]))
}

/// Equality up to ASCII case, as `str::eq_ignore_ascii_case`.
pub open spec fn eq_ignore_case(a: Seq<char>, b: Seq<char>) -> bool {
    a.len() == b.len() && forall|i: int| 0 <= i < a.len() ==> lower_char(a[i]) == lower_char(b[i])
}

/// Two texts that differ at `i` beyond case are not equal up to case.
pub proof fn lemma_ne_ignore_case(a: Seq<char>, b: Seq<char>, i: int)
    requires
        0 <= i < a.len(),
        i < b.len(),
        lower_char(a[i]) != lower_char(b[i]),
    ensures
        !eq_ignore_case(a, b),
{
}

pub proof fn lemma_eq_ignore_case_refl(a: Seq<char>)
    ensures
        eq_ignore_case(a, a),
{
}

/// Equality up to case carries over from `s` to any `t` equal to it up to case.
pub proof fn lemma_eq_ignore_case_trans_iff(s: Seq<char>, t: Seq<char>, l: Seq<char>)
    requires
        eq_ignore_case(s, t),
    ensures
        eq_ignore_case(s, l) <==> eq_ignore_case(t, l),
{
}

pub fn to_upper_char(c: char) -> (r: char)
    ensures
        r == upper_char(c),
{
    if 'a' <= c && c <= 'z' {
        ((c as u8) - 32) as char
    } else {
        c
    }
}

pub fn to_lower_char(c: char) -> (r: char)
    ensures
        r == lower_char(c),
{
    if 'A' <= c && c <= 'Z' {
        ((c as u8) + 32) as char
    } else {
        c
    }
}

pub fn to_upper(s: &Vec<char>) -> (r: Vec<char>)
    ensures
        r@ == upper(s@),
{
    let mut r: Vec<char> = Vec::new();
    for i in 0..s.len()
        invariant
            r@ =~= upper(s@).take(i as int),
    {
        r.push(to_upper_char(s[i]));
    }
    assert(upper(s@).take(s@.len() as int) =~= upper(s@));
    r
}

pub fn eq_ignore_case_lit(s: &Vec<char>, lit: &str) -> (r: bool)
    ensures
        r == eq_ignore_case(s@, lit@),
{
    let n: usize = lit.unicode_len();
    if s.len() != n {
        return false;
    }
    for i in 0..n
        invariant
            n == s@.len(),
            n == lit@.len(),
            forall|j: int| 0 <= j < i ==> lower_char(s@[j]) == lower_char(lit@[j]),
    {
        if to_lower_char(s[i]) != to_lower_char(lit.get_char(i)) {
            return false;
        }
    }
    true
}

pub fn eq_lit(s: &Vec<char>, lit: &str) -> (r: bool)
    ensures
        r == (s@ == lit@),
{
    let n: usize = lit.unicode_len();
    if s.len() != n {
        return false;
    }
    for i in 0..n
        invariant
            n == s@.len(),
            n == lit@.len(),
            forall|j: int| 0 <= j < i ==> s@[j] == lit@[j],
    {
        if s[i] != lit.get_char(i) {
            return false;
        }
    }
    assert(s@ =~= lit@);
    true
}

// ---------------------------------------------------------------------------
// Decimal numbers
// ---------------------------------------------------------------------------

pub open spec fn is_digit(c: char) -> bool {
    '0' <= c && c <= '9'
}

pub open spec fn digit_val(c: char) -> nat {
    ((c as int) - ('0' as int)) as nat
}

pub open spec fn digit_char(d: nat) -> char {
    (d + ('0' as int)) as char
}

pub open spec fn all_digits(s: Seq<char>) -> bool {
    forall|i: int| 0 <= i < s.len() ==> is_digit(#[trigger] s[i])
}

/// The value of a string of decimal digits.
pub open spec fn digits_value(s: Seq<char>) -> nat
    decreases s.len(),
{
    if s.len() == 0 {
        0
    } else {
        digits_value(s.drop_last()) * 10 + digit_val(s.last())
    }
}

/// An unsigned integer of at most `max`, as the `from_str` of the unsigned
/// integer types reads it: an optional `+`, then one or more decimal digits.
pub open spec fn parse_uint(s: Seq<char>, max: nat) -> Option<nat> {
    let d = if s.len() > 0 && s[0] == '+' {
        s.drop_first()
    } else {
        s
    };
    if d.len() > 0 && all_digits(d) && digits_value(d) <= max {
        Some(digits_value(d))
    } else {
        None
    }
}

/// The shortest decimal form of `n`, as `Display` writes integers.
pub open spec fn decimal(n: nat) -> Seq<char>
    decreases n,
{
    if n < 10 {
        seq![digit_char(n)]
    } else {
        decimal(n / 10).push(digit_char(n % 10))
    }
}

pub proof fn lemma_digits_value_prefix(s: Seq<char>, k: int)
    requires
        0 <= k <= s.len(),
        all_digits(s),
    ensures
        digits_value(s.take(k)) <= digits_value(s),
    decreases s.len(),
{
    if k < s.len() {
        assert(s.drop_last().take(k) =~= s.take(k));
        lemma_digits_value_prefix(s.drop_last(), k);
    } else {
        assert(s.take(k) =~= s);
    }
}

pub proof fn lemma_decimal(n: nat)
    ensures
        decimal(n).len() > 0,
        all_digits(decimal(n)),
        digits_value(decimal(n)) == n,
        decimal(n)[0] != '+',
    decreases n,
{
    if n >= 10 {
        lemma_decimal(n / 10);
        let d = decimal(n);
        assert(d.drop_last() =~= decimal(n / 10));
        assert(d[0] == decimal(n / 10)[0]);
        assert(digit_val(digit_char((n % 10) as nat)) == n % 10);
        assert(d.last() == digit_char((n % 10) as nat));
        assert(digits_value(d) == digits_value(d.drop_last()) * 10 + digit_val(d.last()));
        assert((n / 10) * 10 + n % 10 == n);
    } else {
        let d = decimal(n);
        assert(digit_val(digit_char(n)) == n);
        assert(d.drop_last() =~= Seq::<char>::empty());
        assert(digits_value(Seq::<char>::empty()) == 0);
        assert(digits_value(d) == digits_value(d.drop_last()) * 10 + digit_val(d.last()));
    }
}

/// Reading back the decimal form of `n` gives `n`.
pub proof fn lemma_parse_decimal(n: nat, max: nat)
    requires
        n <= max,
    ensures
        parse_uint(decimal(n), max) == Some(n),
{
    lemma_decimal(n);
}

/// The decimal form of a positive number does not start with `0`.
pub proof fn lemma_decimal_leading(n: nat)
    ensures
        n > 0 ==> decimal(n)[0] != '0',
        n < 10 ==> decimal(n).len() == 1,
        n < 100 ==> decimal(n).len() <= 2,
        n < 1000 ==> decimal(n).len() <= 3,
    decreases n,
{
    lemma_decimal(n);
    if n >= 10 {
        lemma_decimal_leading(n / 10);
        assert(decimal(n)[0] == decimal(n / 10)[0]);
    }
}

/// A decimal form holds no separator of the attribute grammars.
pub proof fn lemma_decimal_has_no(n: nat, c: char)
    requires
        !is_digit(c),
    ensures
        has_no(decimal(n), c),
{
    lemma_decimal(n);
}

pub fn digit_to_char(d: u64) -> (c: char)
    requires
        d < 10,
    ensures
        c == digit_char(d as nat),
{
    ((d as u8) + 48) as char
}

/// Reads an unsigned integer of at most `max`.
pub fn parse_uint_chars(s: &Vec<char>, max: u64) -> (r: Option<u64>)
    ensures
        match r {
            Some(v) => parse_uint(s@, max as nat) == Some(v as nat),
            None => parse_uint(s@, max as nat) is None,
        },
{
    let n: usize = s.len();
    let start: usize = if n > 0 && s[0] == '+' {
        1
    } else {
        0
    };
    let ghost d = if s@.len() > 0 && s@[0] == '+' {
        s@.drop_first()
    } else {
        s@
    };
    assert(d =~= s@.skip(start as int));
    if start >= n {
        return None;
    }
    let mut v: u64 = 0;
    let mut i: usize = start;
    while i < n
        invariant
            start <= i <= n,
            n == s@.len(),
            d =~= s@.skip(start as int),
            parse_uint(s@, max as nat) == (if d.len() > 0 && all_digits(d) && digits_value(d)
                <= max as nat {
                Some(digits_value(d))
            } else {
                None
            }),
            all_digits(d.take(i - start)),
            v as nat == digits_value(d.take(i - start)),
            v <= max,
        decreases n - i,
    {
        let c = s[i];
        if !('0' <= c && c <= '9') {
            assert(d[i - start] == c);
            assert(!is_digit(d[i - start]));
            assert(!all_digits(d));
            return None;
        }
        let dv: u64 = ((c as u32) - 48) as u64;
        let ghost pre = d.take(i - start);
        assert(d.take(i - start + 1).drop_last() =~= pre);
        assert(d.take(i - start + 1).last() == c);
        if v > max / 10 || dv > max - v * 10 {
            proof {
                assert(digits_value(d.take(i - start + 1)) == v * 10 + dv);
                assert(all_digits(d.take(i - start + 1)));
                if all_digits(d) {
                    lemma_digits_value_prefix(d, i - start + 1);
                }
            }
            return None;
        }
        v = v * 10 + dv;
        i = i + 1;
    }
    assert(d.take(n - start) =~= d);
    Some(v)
}

/// Appends the decimal form of `n`.
pub fn push_decimal(out: &mut Vec<char>, n: u64)
    ensures
        final(out)@ == old(out)@ + decimal(n as nat),
    decreases n,
{
    if n < 10 {
        out.push(digit_to_char(n));
    } else {
        push_decimal(out, n / 10);
        out.push(digit_to_char(n % 10));
        assert(decimal(n as nat) == decimal((n / 10) as nat).push(digit_char((n % 10) as nat)));
    }
}

// ---------------------------------------------------------------------------
// Hexadecimal numbers
// ---------------------------------------------------------------------------

pub open spec fn is_hex_digit(c: char) -> bool {
    ('0' <= c && c <= '9') || ('a' <= c && c <= 'f') || ('A' <= c && c <= 'F')
}

pub open spec fn hex_val(c: char) -> nat {
    if '0' <= c && c <= '9' {
        ((c as int) - ('0' as int)) as nat
    } else if 'a' <= c && c <= 'f' {
        ((c as int) - ('a' as int) + 10) as nat
    } else {
        ((c as int) - ('A' as int) + 10) as nat
    }
}

pub open spec fn all_hex(s: Seq<char>) -> bool {
    forall|i: int| 0 <= i < s.len() ==> is_hex_digit(#[trigger] s[i])
}

/// The value of a string of hexadecimal digits.
pub open spec fn hex_value(s: Seq<char>) -> nat
    decreases s.len(),
{
    if s.len() == 0 {
        0
    } else {
        hex_value(s.drop_last()) * 16 + hex_val(s.last())
    }
}

/// The lower-case hexadecimal digit of `d < 16`.
pub open spec fn hex_digit_lower(d: nat) -> char {
    if d < 10 {
        (d + ('0' as int)) as char
    } else {
        (d - 10 + ('a' as int)) as char
    }
}

/// The upper-case hexadecimal digit of `d < 16`.
pub open spec fn hex_digit_upper(d: nat) -> char {
    if d < 10 {
        (d + ('0' as int)) as char
    } else {
        (d - 10 + ('A' as int)) as char
    }
}

/// The shortest lower-case hexadecimal form of `n`, as `{:x}` writes it.
pub open spec fn hex_lower(n: nat) -> Seq<char>
    decreases n,
{
    if n < 16 {
        seq![hex_digit_lower(n)]
    } else {
        hex_lower(n / 16).push(hex_digit_lower(n % 16))
    }
}

/// The two upper-case hexadecimal digits of a byte, as `{:02X}` writes it.
pub open spec fn hex_byte_upper(b: u8) -> Seq<char> {
    seq![hex_digit_upper((b / 16) as nat), hex_digit_upper((b % 16) as nat)]
}

pub proof fn lemma_hex_lower(n: nat)
    ensures
        hex_lower(n).len() >= 1,
        all_hex(hex_lower(n)),
        hex_value(hex_lower(n)) == n,
        n < 0x10 ==> hex_lower(n).len() <= 1,
        n < 0x100 ==> hex_lower(n).len() <= 2,
        n < 0x1000 ==> hex_lower(n).len() <= 3,
        n < 0x10000 ==> hex_lower(n).len() <= 4,
    decreases n,
{
    let d = hex_lower(n);
    if n >= 16 {
        lemma_hex_lower(n / 16);
        assert(d.drop_last() =~= hex_lower(n / 16));
        assert(hex_val(hex_digit_lower((n % 16) as nat)) == n % 16);
        assert(hex_value(d) == hex_value(d.drop_last()) * 16 + hex_val(d.last()));
        assert((n / 16) * 16 + n % 16 == n);
        assert(all_hex(d)) by {
            assert forall|i: int| 0 <= i < d.len() implies is_hex_digit(#[trigger] d[i]) by {
                if i < d.len() - 1 {
                    assert(d[i] == hex_lower(n / 16)[i]);
                }
            }
        }
        assert(d.len() == hex_lower(n / 16).len() + 1);
        assert(n < 0x100 ==> n / 16 < 0x10);
        assert(n < 0x1000 ==> n / 16 < 0x100);
        assert(n < 0x10000 ==> n / 16 < 0x1000);
    } else {
        assert(hex_val(hex_digit_lower(n)) == n);
        assert(d.drop_last() =~= Seq::<char>::empty());
        assert(hex_value(Seq::<char>::empty()) == 0);
        assert(hex_value(d) == hex_value(d.drop_last()) * 16 + hex_val(d.last()));
    }
}

pub fn hex_digit_value(c: char) -> (r: u64)
    requires
        is_hex_digit(c),
    ensures
        r as nat == hex_val(c),
        r < 16,
{
    if '0' <= c && c <= '9' {
        ((c as u32) - 48) as u64
    } else if 'a' <= c && c <= 'f' {
        ((c as u32) - 87) as u64
    } else {
        ((c as u32) - 55) as u64
    }
}

pub fn is_hex_char(c: char) -> (r: bool)
    ensures
        r == is_hex_digit(c),
{
    ('0' <= c && c <= '9') || ('a' <= c && c <= 'f') || ('A' <= c && c <= 'F')
}

fn lower_hex_digit(d: u64) -> (c: char)
    requires
        d < 16,
    ensures
        c == hex_digit_lower(d as nat),
{
    if d < 10 {
        ((d as u8) + 48) as char
    } else {
        ((d as u8) + 87) as char
    }
}

fn upper_hex_digit(d: u64) -> (c: char)
    requires
        d < 16,
    ensures
        c == hex_digit_upper(d as nat),
{
    if d < 10 {
        ((d as u8) + 48) as char
    } else {
        ((d as u8) + 55) as char
    }
}

/// Appends the lower-case hexadecimal form of `n`.
pub fn push_hex_lower(out: &mut Vec<char>, n: u64)
    ensures
        final(out)@ == old(out)@ + hex_lower(n as nat),
    decreases n,
{
    if n < 16 {
        out.push(lower_hex_digit(n));
    } else {
        push_hex_lower(out, n / 16);
        out.push(lower_hex_digit(n % 16));
        assert(hex_lower(n as nat) == hex_lower((n / 16) as nat).push(
            hex_digit_lower((n % 16) as nat),
        ));
    }
}

/// Appends the two upper-case hexadecimal digits of `b`.
pub fn push_hex_byte_upper(out: &mut Vec<char>, b: u8)
    ensures
        final(out)@ == old(out)@ + hex_byte_upper(b),
{
    out.push(upper_hex_digit((b / 16) as u64));
    out.push(upper_hex_digit((b % 16) as u64));
    assert(final(out)@ =~= old(out)@ + hex_byte_upper(b));
}

// ---------------------------------------------------------------------------
// Conversions between `str`, `String` and character vectors
// ---------------------------------------------------------------------------

pub fn chars_of(s: &str) -> (r: Vec<char>)
    ensures
        r@ == s@,
{
    let n: usize = s.unicode_len();
    let mut r: Vec<char> = Vec::new();
    for i in 0..n
        invariant
            n == s@.len(),
            r@ =~= s@.take(i as int),
    {
        r.push(s.get_char(i));
    }
    assert(s@.take(n as int) =~= s@);
    r
}

/// std's `String::push`, which its documentation says appends the character
/// to the end of the string; the contract claims that the characters after
/// the call are those before it followed by `c`, and nothing else.
#[verifier::external_body]
fn string_push(s: &mut String, c: char)
    ensures
        final(s)@ == old(s)@.push(c),
{
    s.push(c);
}

pub fn string_of(v: &Vec<char>) -> (r: String)
    ensures
        r@ == v@,
{
    let mut r: String = String::new();
    for i in 0..v.len()
        invariant
            r@ =~= v@.take(i as int),
    {
        string_push(&mut r, v[i]);
    }
    assert(v@.take(v@.len() as int) =~= v@);
    r
}

pub fn lit(s: &str) -> (r: String)
    ensures
        r@ == s@,
{
    s.to_owned()
}

pub fn push_str(out: &mut Vec<char>, s: &str)
    ensures
        final(out)@ == old(out)@ + s@,
{
    let n: usize = s.unicode_len();
    let ghost start = out@;
    for i in 0..n
        invariant
            n == s@.len(),
            out@ =~= start + s@.take(i as int),
    {
        out.push(s.get_char(i));
    }
    assert(s@.take(n as int) =~= s@);
}

pub fn push_chars(out: &mut Vec<char>, s: &Vec<char>)
    ensures
        final(out)@ == old(out)@ + s@,
{
    let ghost start = out@;
    for i in 0..s.len()
        invariant
            out@ =~= start + s@.take(i as int),
    {
        out.push(s[i]);
    }
    assert(s@.take(s@.len() as int) =~= s@);
}

pub fn push_string(out: &mut Vec<char>, s: &String)
    ensures
        final(out)@ == old(out)@ + s@,
{
    push_str(out, s.as_str());
}

pub fn subvec(s: &Vec<char>, from: usize, to: usize) -> (r: Vec<char>)
    requires
        from <= to <= s@.len(),
    ensures
        r@ == s@.subrange(from as int, to as int),
{
    let mut r: Vec<char> = Vec::new();
    for i in from..to
        invariant
            to <= s@.len(),
            r@ =~= s@.subrange(from as int, i as int),
    {
        r.push(s[i]);
    }
    r
}

// ---------------------------------------------------------------------------
// Executable splitting
// ---------------------------------------------------------------------------

pub fn find_char(s: &Vec<char>, c: char, k: usize) -> (r: Option<usize>)
    requires
        k <= s@.len(),
    ensures
        match r {
            Some(i) => find_from(s@, c, k as int) == Some(i as int),
            None => find_from(s@, c, k as int) is None,
        },
{
    let mut i: usize = k;
    while i < s.len()
        invariant
            k <= i <= s@.len(),
            find_from(s@, c, k as int) == find_from(s@, c, i as int),
        decreases s@.len() - i,
    {
        if s[i] == c {
            return Some(i);
        }
        i = i + 1;
    }
    None
}

proof fn lemma_find_from_skip(s: Seq<char>, c: char, k: int)
    requires
        0 <= k <= s.len(),
    ensures
        find(s.skip(k), c) == (match find_from(s, c, k) {
            Some(i) => Some(i - k),
            None => None,
        }),
{
    lemma_find_from(s, c, k);
    let t = s.skip(k);
    match find_from(s, c, k) {
        Some(i) => {
            lemma_find_is(t, c, i - k);
        },
        None => {
            lemma_find_none(t, c);
        },
    }
}

/// The character sequences of a vector of character vectors.
pub open spec fn views(v: Seq<Vec<char>>) -> Seq<Seq<char>> {
    v.map_values(|x: Vec<char>| x@)
}

pub fn split_chars(s: &Vec<char>, c: char) -> (r: Vec<Vec<char>>)
    ensures
        views(r@) == split(s@, c),
{
    let mut r: Vec<Vec<char>> = Vec::new();
    let mut start: usize = 0;
    assert(s@.skip(0) =~= s@);
    assert(views(r@) + split(s@, c) =~= split(s@, c));
    loop
        invariant
            start <= s@.len(),
            views(r@) + split(s@.skip(start as int), c) == split(s@, c),
        decreases s@.len() - start,
    {
        proof {
            lemma_find_from_skip(s@, c, start as int);
        }
        match find_char(s, c, start) {
            Some(i) => {
                proof {
                    lemma_find_from(s@, c, start as int);
                }
                let n: usize = s.len();
                assert(i < n);
                let piece = subvec(s, start, i);
                let ghost t = s@.skip(start as int);
                assert(t.take(i - start) =~= piece@);
                assert(t.skip(i - start + 1) =~= s@.skip(i + 1));
                let ghost old_r = views(r@);
                r.push(piece);
                assert(views(r@) =~= old_r.push(piece@));
                assert(old_r + split(t, c) =~= views(r@) + split(s@.skip(i + 1), c));
                start = i + 1;
            },
            None => {
                let piece = subvec(s, start, s.len());
                let ghost old_r = views(r@);
                assert(s@.skip(start as int) =~= piece@);
                r.push(piece);
                assert(views(r@) =~= old_r.push(piece@));
                assert(views(r@) =~= old_r + split(s@.skip(start as int), c));
                return r;
            },
        }
    }
}

pub fn splitn_chars(s: &Vec<char>, n: usize, c: char) -> (r: Vec<Vec<char>>)
    requires
        n >= 1,
    ensures
        views(r@) == splitn(s@, n as nat, c),
{
    let mut r: Vec<Vec<char>> = Vec::new();
    let mut start: usize = 0;
    let mut left: usize = n;
    assert(s@.skip(0) =~= s@);
    assert(views(r@) + splitn(s@, n as nat, c) =~= splitn(s@, n as nat, c));
    loop
        invariant
            start <= s@.len(),
            1 <= left <= n,
            views(r@) + splitn(s@.skip(start as int), left as nat, c) == splitn(s@, n as nat, c),
        decreases left,
    {
        proof {
            lemma_find_from_skip(s@, c, start as int);
        }
        let ghost t = s@.skip(start as int);
        let ghost old_r = views(r@);
        let found = if left == 1 {
            None
        } else {
            find_char(s, c, start)
        };
        match found {
            Some(i) => {
                proof {
                    lemma_find_from(s@, c, start as int);
                }
                let len: usize = s.len();
                assert(i < len);
                let piece = subvec(s, start, i);
                assert(t.take(i - start) =~= piece@);
                assert(t.skip(i - start + 1) =~= s@.skip(i + 1));
                r.push(piece);
                assert(views(r@) =~= old_r.push(piece@));
                assert(old_r + splitn(t, left as nat, c) =~= views(r@) + splitn(
                    s@.skip(i + 1),
                    (left - 1) as nat,
                    c,
                ));
                start = i + 1;
                left = left - 1;
            },
            None => {
                let piece = subvec(s, start, s.len());
                assert(t =~= piece@);
                r.push(piece);
                assert(views(r@) =~= old_r.push(piece@));
                assert(views(r@) =~= old_r + splitn(t, left as nat, c));
                return r;
            },
        }
    }
}

pub fn split_once_chars(s: &Vec<char>, c: char) -> (r: Option<(Vec<char>, Vec<char>)>)
    ensures
        match r {
            Some((a, b)) => split_once(s@, c) == Some((a@, b@)),
            None => split_once(s@, c) is None,
        },
{
    proof {
        lemma_find_from(s@, c, 0);
    }
    match find_char(s, c, 0) {
        Some(i) => {
            let len: usize = s.len();
            let a = subvec(s, 0, i);
            let b = subvec(s, i + 1, len);
            assert(a@ =~= s@.take(i as int));
            assert(b@ =~= s@.skip(i + 1));
            Some((a, b))
        },
        None => None,
    }
}

/// `s` with the prefix `p` removed, when it starts with `p`.
pub fn strip_prefix_lit(s: &Vec<char>, p: &str) -> (r: Option<Vec<char>>)
    ensures
        match r {
            Some(t) => strip_prefix(s@, p@) == Some(t@),
            None => strip_prefix(s@, p@) is None,
        },
{
    let n: usize = p.unicode_len();
    if n > s.len() {
        return None;
    }
    let head = subvec(s, 0, n);
    assert(head@ =~= s@.take(n as int));
    if eq_lit(&head, p) {
        let tail = subvec(s, n, s.len());
        assert(tail@ =~= s@.skip(n as int));
        Some(tail)
    } else {
        None
    }
}

/// The pieces joined with `c`.
pub fn join_chars(parts: &Vec<Vec<char>>, c: char) -> (r: Vec<char>)
    ensures
        r@ == join(views(parts@), c),
{
    let mut out: Vec<char> = Vec::new();
    let n: usize = parts.len();
    assert(views(parts@).take(0) =~= Seq::<Seq<char>>::empty());
    for i in 0..n
        invariant
            n == parts@.len(),
            out@ == join(views(parts@).take(i as int), c),
    {
        let ghost pre = views(parts@).take(i as int);
        assert(views(parts@).take(i + 1) =~= pre.push(parts@[i as int]@));
        if i > 0 {
            out.push(c);
            proof {
                lemma_join_push(pre, parts@[i as int]@, c);
            }
        } else {
            assert(pre.push(parts@[i as int]@) =~= seq![parts@[i as int]@]);
            assert(out@ =~= Seq::<char>::empty());
        }
        push_chars(&mut out, &parts[i]);
    }
    assert(views(parts@).take(n as int) =~= views(parts@));
    out
}

/// The pieces of a split hold no separator.
pub proof fn lemma_split_pieces(s: Seq<char>, c: char)
    ensures
        forall|k: int| 0 <= k < split(s, c).len() ==> has_no(#[trigger] split(s, c)[k], c),
    decreases s.len(),
{
    lemma_find(s, c);
    match find(s, c) {
        None => {},
        Some(i) => {
            let rest = s.skip(i + 1);
            lemma_split_pieces(rest, c);
            let p = split(s, c);
            assert forall|k: int| 0 <= k < p.len() implies has_no(#[trigger] p[k], c) by {
                if k == 0 {
                    assert(p[0] == s.take(i));
                } else {
                    assert(p[k] == split(rest, c)[k - 1]);
                }
            }
        },
    }
}

/// The pieces of a split hold no character that the text does not hold.
pub proof fn lemma_split_pieces_keep(s: Seq<char>, c: char, d: char)
    requires
        has_no(s, d),
    ensures
        forall|k: int| 0 <= k < split(s, c).len() ==> has_no(#[trigger] split(s, c)[k], d),
    decreases s.len(),
{
    lemma_find(s, c);
    match find(s, c) {
        None => {},
        Some(i) => {
            let rest = s.skip(i + 1);
            lemma_split_pieces_keep(rest, c, d);
            let p = split(s, c);
            assert forall|k: int| 0 <= k < p.len() implies has_no(#[trigger] p[k], d) by {
                if k == 0 {
                    assert(p[0] == s.take(i));
                } else {
                    assert(p[k] == split(rest, c)[k - 1]);
                }
            }
        },
    }
}

/// The pieces of `splitn` before the last hold no separator, nor does the
/// last one when there are fewer pieces than the bound.
pub proof fn lemma_splitn_pieces(s: Seq<char>, n: nat, c: char)
    ensures
        forall|k: int|
            0 <= k < splitn(s, n, c).len() && (k + 1 < splitn(s, n, c).len() || splitn(
                s,
                n,
                c,
            ).len() < n) ==> has_no(#[trigger] splitn(s, n, c)[k], c),
    decreases n,
{
    lemma_find(s, c);
    if n >= 2 {
        match find(s, c) {
            None => {},
            Some(i) => {
                let rest = s.skip(i + 1);
                lemma_splitn_pieces(rest, (n - 1) as nat, c);
                let p = splitn(s, n, c);
                let q = splitn(rest, (n - 1) as nat, c);
                assert(p == seq![s.take(i)] + q);
                assert forall|k: int|
                    0 <= k < p.len() && (k + 1 < p.len() || p.len() < n) implies has_no(
                    #[trigger] p[k],
                    c,
                ) by {
                    if k == 0 {
                        assert(p[0] == s.take(i));
                    } else {
                        assert(p[k] == q[k - 1]);
                    }
                }
            },
        }
    }
}

/// The text before the first separator holds none; text without a first
/// separator holds none at all.
pub proof fn lemma_split_once_pieces(s: Seq<char>, c: char)
    ensures
        split_once(s, c) matches Some((a, b)) ==> has_no(a, c),
        split_once(s, c) is None ==> has_no(s, c),
{
    lemma_find(s, c);
}

/// Equality of two texts.
pub fn str_eq(a: &str, b: &str) -> (r: bool)
    ensures
        r == (a@ == b@),
{
    eq_lit(&chars_of(a), b)
}

/// Equality of two texts up to ASCII case.
pub fn str_eq_ignore_case(a: &str, b: &str) -> (r: bool)
    ensures
        r == eq_ignore_case(a@, b@),
{
    eq_ignore_case_lit(&chars_of(a), b)
}

/// `s` without its trailing run of `c`.
pub fn trim_end_chars(s: &Vec<char>, c: char) -> (r: Vec<char>)
    ensures
        r@ == trim_end(s@, c),
{
    let mut k: usize = s.len();
    assert(s@.take(k as int) =~= s@);
    while k > 0 && s[k - 1] == c
        invariant
            k <= s@.len(),
            trim_end(s@, c) == trim_end(s@.take(k as int), c),
        decreases k,
    {
        assert(s@.take(k as int).drop_last() =~= s@.take(k - 1));
        k = k - 1;
    }
    subvec(s, 0, k)
}

/// A join ends as its last piece does, when that piece is not empty.
pub proof fn lemma_join_last(p: Seq<Seq<char>>, c: char)
    requires
        p.len() > 0,
        p.last().len() > 0,
    ensures
        join(p, c).len() > 0,
        join(p, c).last() == p.last().last(),
{
    if p.len() > 1 {
        lemma_join_push(p.drop_last(), p.last(), c);
        assert(p.drop_last().push(p.last()) =~= p);
    }
}

/// Removing a final `c` from text that does not end in `c` gives the text.
pub proof fn lemma_trim_end_one(a: Seq<char>, c: char)
    requires
        a.len() > 0,
        a.last() != c,
    ensures
        trim_end(a + seq![c], c) == a,
{
    assert(trim_end(a, c) == a);
    assert((a + seq![c]).drop_last() =~= a);
}

} // verus!
