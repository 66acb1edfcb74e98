//! Character-level helpers shared by the parsers.

use vstd::prelude::*;

verus! {

/// ASCII lower-casing of one character; every other character is kept.
pub open spec fn lower_char(c: char) -> char {
    if 'A' <= c && c <= 'Z' {
        ((c as u32) + 32) as char
    } else {
        c
    }
}

/// ASCII lower-casing of a whole text.
pub open spec fn lower(s: Seq<char>) -> Seq<char> {
    s.map_values(|c: char| lower_char(c))
}

pub fn to_lower_char(c: char) -> (r: char)
    ensures
        r == lower_char(c),
{
    if 'A' <= c && c <= 'Z' {
        ((c as u8) + 32) as char
    } else {
        c
    }
}

/// Relies on `String::push`: appends one character.
#[verifier::external_body]
pub(crate) fn push_char(s: &mut String, c: char)
    ensures
        final(s)@ == old(s)@.push(c),
{
    s.push(c)
}

/// The characters of a text, one by one.
pub fn chars_of(s: &str) -> (r: Vec<char>)
    ensures
        r@ == s@,
{
    let mut out: Vec<char> = Vec::new();
    for c in it: s.chars()
        invariant
            out@ == it.seq().subrange(0, it.index() as int),
    {
        out.push(c);
    }
    out
}

/// A text made of the characters `cs[from..to]`.
pub fn string_of(cs: &Vec<char>, from: usize, to: usize) -> (r: String)
    requires
        from <= to <= cs@.len(),
    ensures
        r@ == cs@.subrange(from as int, to as int),
{
    let mut out = String::new();
    let mut i = from;
    while i < to
        invariant
            from <= i <= to <= cs@.len(),
            out@ == cs@.subrange(from as int, i as int),
        decreases to - i,
    {
        push_char(&mut out, cs[i]);
        assert(cs@.subrange(from as int, i + 1) =~= cs@.subrange(from as int, i as int).push(cs@[i as int]));
        i = i + 1;
    }
    out
}

} // verus!

verus! {

/// Position of the first `c` in `t` at or after `i`, or the length of `t`.
pub open spec fn find_from(t: Seq<char>, c: char, i: int) -> int
    decreases t.len() - i,
{
    if i < 0 || i >= t.len() {
        t.len() as int
    } else if t[i] == c {
        i
    } else {
        find_from(t, c, i + 1)
    }
}

/// Position of the first `c` in `t`, or the length of `t`.
pub open spec fn find_char(t: Seq<char>, c: char) -> int {
    find_from(t, c, 0)
}

pub proof fn lemma_find_from_bounds(t: Seq<char>, c: char, i: int)
    requires
        0 <= i <= t.len(),
    ensures
        i <= find_from(t, c, i) <= t.len(),
        find_from(t, c, i) < t.len() ==> t[find_from(t, c, i)] == c,
        forall|j: int| i <= j < find_from(t, c, i) ==> t[j] != c,
    decreases t.len() - i,
{
    if i < t.len() && t[i] != c {
        lemma_find_from_bounds(t, c, i + 1);
    }
}

/// `find_from` meets the first `c` at `k` when nothing before it is `c`.
pub proof fn lemma_find_from_at(t: Seq<char>, c: char, i: int, k: int)
    requires
        0 <= i <= k < t.len(),
        t[k] == c,
        forall|j: int| i <= j < k ==> t[j] != c,
    ensures
        find_from(t, c, i) == k,
    decreases k - i,
{
    if i < k {
        lemma_find_from_at(t, c, i + 1, k);
    }
}

/// Lower-casing keeps the length and moves no non-letter.
pub proof fn lemma_lower_char_keeps_punctuation(c: char, d: char)
    requires
        !('A' <= d && d <= 'Z'),
        !('a' <= d && d <= 'z'),
    ensures
        lower_char(c) == d <==> c == d,
{
}

/// Lower-casing twice changes nothing more.
pub proof fn lemma_lower_idempotent(s: Seq<char>)
    ensures
        lower(lower(s)) == lower(s),
{
    assert(lower(lower(s)) =~= lower(s));
}

/// Executable `find_from` over a vector of characters.
pub fn find_in_from(t: &Vec<char>, c: char, from: usize) -> (r: usize)
    requires
        from <= t@.len(),
    ensures
        r == find_from(t@, c, from as int),
        from <= r <= t@.len(),
{
    proof {
        lemma_find_from_bounds(t@, c, from as int);
    }
    let mut i: usize = from;
    while i < t.len()
        invariant
            from <= i <= t@.len(),
            find_from(t@, c, i as int) == find_from(t@, c, from as int),
        decreases t.len() - i,
    {
        if t[i] == c {
            return i;
        }
        i = i + 1;
    }
    i
}

/// The characters `t[from..to]` as a vector of their own.
pub fn sub_chars(t: &Vec<char>, from: usize, to: usize) -> (r: Vec<char>)
    requires
        from <= to <= t@.len(),
    ensures
        r@ == t@.subrange(from as int, to as int),
{
    let mut out: Vec<char> = Vec::new();
    let mut i = from;
    while i < to
        invariant
            from <= i <= to <= t@.len(),
            out@ == t@.subrange(from as int, i as int),
        decreases to - i,
    {
        out.push(t[i]);
        assert(t@.subrange(from as int, i + 1) =~= t@.subrange(from as int, i as int).push(t@[i as int]));
        i = i + 1;
    }
    out
}

/// Executable `find_char` over a vector of characters.
pub fn find_in(t: &Vec<char>, c: char) -> (r: usize)
    ensures
        r == find_char(t@, c),
        r <= t@.len(),
{
    let mut i: usize = 0;
    while i < t.len()
        invariant
            i <= t@.len(),
            find_from(t@, c, i as int) == find_char(t@, c),
        decreases t.len() - i,
    {
        if t[i] == c {
            return i;
        }
        i = i + 1;
    }
    i
}

/// Whether the characters `t[from..to]` spell out `lit`.
pub fn segment_is(t: &Vec<char>, from: usize, to: usize, lit: &str) -> (r: bool)
    requires
        from <= to <= t@.len(),
    ensures
        r == (t@.subrange(from as int, to as int) == lit@),
{
    let l = chars_of(lit);
    if to - from != l.len() {
        return false;
    }
    let mut i: usize = 0;
    while i < l.len()
        invariant
            from <= to <= t@.len(),
            to - from == l@.len(),
            l@ == lit@,
            i <= l@.len(),
            forall|j: int| 0 <= j < i ==> t@[from + j] == l@[j],
        decreases l.len() - i,
    {
        if t[from + i] != l[i] {
            assert(t@.subrange(from as int, to as int)[i as int] != lit@[i as int]);
            return false;
        }
        i = i + 1;
    }
    assert(t@.subrange(from as int, to as int) =~= lit@);
    true
}

/// Whether `t` starts with `lit`.
pub fn starts_with(t: &Vec<char>, lit: &str) -> (r: bool)
    ensures
        r == (lit@.len() <= t@.len() && t@.subrange(0, lit@.len() as int) == lit@),
{
    let n = lit.unicode_len();
    if n > t.len() {
        false
    } else {
        segment_is(t, 0, n, lit)
    }
}

/// ASCII lower-casing of a vector of characters.
pub fn lower_chars(t: &Vec<char>) -> (r: Vec<char>)
    ensures
        r@ == lower(t@),
{
    let mut out: Vec<char> = Vec::new();
    let mut i: usize = 0;
    while i < t.len()
        invariant
            i <= t@.len(),
            out@ == lower(t@.subrange(0, i as int)),
        decreases t.len() - i,
    {
        out.push(to_lower_char(t[i]));
        i = i + 1;
        assert(lower(t@.subrange(0, i as int)) =~= lower(t@.subrange(0, i - 1)).push(lower_char(t@[i - 1])));
    }
    assert(t@.subrange(0, t@.len() as int) =~= t@);
    out
}

} // verus!

verus! {

/// ASCII white space.
pub open spec fn is_space(c: char) -> bool {
    c == ' ' || c == '\t' || c == '\n' || c == '\r' || c == '\x0B' || c == '\x0C'
}

/// A text without its leading and trailing white space.
pub open spec fn trim(s: Seq<char>) -> Seq<char>
    decreases s.len(),
{
    if s.len() > 0 && is_space(s[0]) {
        trim(s.drop_first())
    } else if s.len() > 0 && is_space(s.last()) {
        trim(s.drop_last())
    } else {
        s
    }
}

/// A text that is empty or white space only.
pub open spec fn is_blank(s: Seq<char>) -> bool {
    forall|i: int| 0 <= i < s.len() ==> is_space(s[i])
}

fn space(c: char) -> (r: bool)
    ensures
        r == is_space(c),
{
    c == ' ' || c == '\t' || c == '\n' || c == '\r' || c == '\x0B' || c == '\x0C'
}

/// The characters `t[from..to]` without leading and trailing white space.
pub fn trimmed(t: &Vec<char>, from: usize, to: usize) -> (r: String)
    requires
        from <= to <= t@.len(),
    ensures
        r@ == trim(t@.subrange(from as int, to as int)),
{
    let mut a = from;
    while a < to && space(t[a])
        invariant
            from <= a <= to <= t@.len(),
            trim(t@.subrange(from as int, to as int)) == trim(t@.subrange(a as int, to as int)),
        decreases to - a,
    {
        assert(t@.subrange(a as int, to as int).drop_first() =~= t@.subrange(a + 1, to as int));
        a = a + 1;
    }
    let mut b = to;
    while a < b && space(t[b - 1])
        invariant
            from <= a <= b <= to <= t@.len(),
            a < b ==> !is_space(t@[a as int]),
            trim(t@.subrange(from as int, to as int)) == trim(t@.subrange(a as int, b as int)),
        decreases b - a,
    {
        assert(t@.subrange(a as int, b as int).drop_last() =~= t@.subrange(a as int, b - 1));
        b = b - 1;
    }
    string_of(t, a, b)
}

/// Whether every character of `t[from..to]` is white space.
pub fn blank_in(t: &Vec<char>, from: usize, to: usize) -> (r: bool)
    requires
        from <= to <= t@.len(),
    ensures
        r == is_blank(t@.subrange(from as int, to as int)),
{
    let mut i = from;
    while i < to
        invariant
            from <= i <= to <= t@.len(),
            forall|j: int| from <= j < i ==> is_space(t@[j]),
        decreases to - i,
    {
        if !space(t[i]) {
            assert(!is_space(t@.subrange(from as int, to as int)[i - from]));
            return false;
        }
        i = i + 1;
    }
    true
}

pub open spec fn is_digit(c: char) -> bool {
    '0' <= c && c <= '9'
}

pub open spec fn digit_value(c: char) -> nat {
    (c as u32 - '0' as u32) as nat
}

/// The number that a sequence of decimal digits spells.
pub open spec fn digits_value(s: Seq<char>) -> nat
    decreases s.len(),
{
    if s.len() == 0 {
        0
    } else {
        digits_value(s.drop_last()) * 10 + digit_value(s.last())
    }
}

/// The digits of a decimal number, after an optional `+`.
pub open spec fn unsigned_digits(s: Seq<char>) -> Seq<char> {
    if s.len() > 0 && s[0] == '+' {
        s.drop_first()
    } else {
        s
    }
}

/// An unsigned decimal number as Rust's integer parsing reads it: an
/// optional `+`, then one or more digits, and a value that fits `max`.
pub open spec fn decimal_value(s: Seq<char>, max: nat) -> Option<nat> {
    let d = unsigned_digits(s);
    if d.len() > 0 && (forall|i: int| 0 <= i < d.len() ==> is_digit(d[i])) && digits_value(d) <= max {
        Some(digits_value(d))
    } else {
        None
    }
}

proof fn lemma_digits_grow(s: Seq<char>, i: int)
    requires
        0 <= i <= s.len(),
        forall|j: int| 0 <= j < s.len() ==> is_digit(s[j]),
    ensures
        digits_value(s.subrange(0, i)) <= digits_value(s),
    decreases s.len() - i,
{
    if i < s.len() {
        lemma_digits_grow(s, i + 1);
        assert(s.subrange(0, i + 1).drop_last() =~= s.subrange(0, i));
    } else {
        assert(s.subrange(0, i) =~= s);
    }
}

/// Reads `t[from..to]` as an unsigned decimal number of at most `u64::MAX`.
pub fn parse_decimal(t: &Vec<char>, from: usize, to: usize) -> (r: Option<u64>)
    requires
        from <= to <= t@.len(),
    ensures
        match r {
            Some(v) => decimal_value(t@.subrange(from as int, to as int), u64::MAX as nat) == Some(v as nat),
            None => decimal_value(t@.subrange(from as int, to as int), u64::MAX as nat) is None,
        },
{
    let ghost s = t@.subrange(from as int, to as int);
    let mut i = from;
    if i < to && t[i] == '+' {
        i = i + 1;
    }
    let start = i;
    let ghost d = t@.subrange(start as int, to as int);
    assert(d =~= unsigned_digits(s));
    if start == to {
        return None;
    }
    let mut value: u64 = 0;
    while i < to
        invariant
            from <= start <= i <= to <= t@.len(),
            d == t@.subrange(start as int, to as int),
            s == t@.subrange(from as int, to as int),
            d == unsigned_digits(s),
            d.len() > 0,
            forall|j: int| start <= j < i ==> is_digit(t@[j]),
            value as nat == digits_value(t@.subrange(start as int, i as int)),
        decreases to - i,
    {
        let c = t[i];
        if !('0' <= c && c <= '9') {
            assert(!is_digit(d[i - start]));
            return None;
        }
        let dv = (c as u32 - '0' as u32) as u64;
        assert(t@.subrange(start as int, i + 1).drop_last() =~= t@.subrange(start as int, i as int));
        let next = match value.checked_mul(10) {
            Some(m) => m.checked_add(dv),
            None => None,
        };
        match next {
            Some(n) => {
                value = n;
            },
            None => {
                proof {
                    let p = t@.subrange(start as int, i + 1);
                    assert(digits_value(p) == value * 10 + dv);
                    if forall|j: int| 0 <= j < d.len() ==> is_digit(d[j]) {
                        lemma_digits_grow(d, i + 1 - start);
                        assert(d.subrange(0, i + 1 - start) =~= p);
                    }
                }
                return None;
            },
        }
        i = i + 1;
    }
    assert(t@.subrange(start as int, i as int) =~= d);
    Some(value)
}

} // verus!

verus! {

pub open spec fn digit_char(d: nat) -> char {
    (('0' as u32) + d) as char
}

/// The decimal digits of a number.
pub open spec fn decimal_text(n: nat) -> Seq<char>
    decreases n,
{
    if n < 10 {
        seq![digit_char(n)]
    } else {
        decimal_text(n / 10).push(digit_char(n % 10))
    }
}

/// Appends the decimal digits of `n` to `out`.
pub fn push_decimal(out: &mut String, n: u32)
    ensures
        final(out)@ == old(out)@ + decimal_text(n as nat),
    decreases n,
{
    if n >= 10 {
        push_decimal(out, n / 10);
    }
    let d = (n % 10) as u8;
    let c = ('0' as u8 + d) as char;
    assert(c == digit_char((n % 10) as nat));
    push_char(out, c);
    assert(out@ =~= old(out)@ + decimal_text(n as nat));
}

} // verus!
