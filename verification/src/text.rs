//! Text as sequences of characters: conversion, ordering, numbers and white space.
//!
//! A `str` is modelled by its characters. The functions here move between
//! strings and character vectors, and state what decimal and hexadecimal
//! numerals, white space and the order of strings are.

use vstd::prelude::*;
use vstd::string::*;
use vstd::utf8::*;

verus! {

/// `String::push` appends one character to the end of the string.
pub assume_specification[ String::push ](s: &mut String, c: char)
    ensures
        final(s)@ == old(s)@.push(c),
;

/// The characters of `s`.
pub fn chars_of(s: &str) -> (v: Vec<char>)
    ensures
        v@ == s@,
{
    let mut v: Vec<char> = Vec::new();
    for c in it: s.chars()
        invariant
            it.seq() == s@,
            v@ == s@.take(it.index()),
    {
        v.push(c);
        assert(s@.take(it.index() + 1) =~= s@.take(it.index()).push(c));
    }
    assert(s@.take(s@.len() as int) =~= s@);
    v
}

/// The string made of the characters of `v`.
pub fn string_of(v: &[char]) -> (s: String)
    ensures
        s@ == v@,
{
    let mut s = String::new();
    let mut i: usize = 0;
    while i < v.len()
        invariant
            i <= v.len(),
            s@ == v@.take(i as int),
        decreases v.len() - i,
    {
        s.push(v[i]);
        assert(v@.take(i + 1) =~= v@.take(i as int).push(v@[i as int]));
        i = i + 1;
    }
    assert(v@.take(v@.len() as int) =~= v@);
    s
}

/// The UTF-8 bytes of `s`.
pub fn bytes_of(s: &str) -> (v: Vec<u8>)
    ensures
        v@ == encode_utf8(s@),
{
    s.as_bytes_vec()
}

/// An owned copy of `s`.
pub fn owned(s: &str) -> (r: String)
    ensures
        r@ == s@,
{
    s.to_owned()
}

/// Whether two strings hold the same characters.
pub fn same(a: &str, b: &str) -> (r: bool)
    ensures
        r == (a@ == b@),
{
    let x = a.as_bytes();
    let y = b.as_bytes();
    if x.len() != y.len() {
        return false;
    }
    let mut i: usize = 0;
    while i < x.len()
        invariant
            i <= x.len(),
            x.len() == y.len(),
            x@ == encode_utf8(a@),
            y@ == encode_utf8(b@),
            forall|j: int| 0 <= j < i ==> x@[j] == y@[j],
        decreases x.len() - i,
    {
        if x[i] != y[i] {
            return false;
        }
        i = i + 1;
    }
    proof {
        assert(x@ =~= y@);
        encode_utf8_decode_utf8(a@);
        encode_utf8_decode_utf8(b@);
    }
    true
}

// ---------------------------------------------------------------------------
// Numerals
// ---------------------------------------------------------------------------

/// The decimal digit with value `d`.
pub open spec fn digit(d: nat) -> char {
    (0x30 + d) as char
}

/// The shortest decimal numeral of `n`.
pub open spec fn dec(n: nat) -> Seq<char>
    decreases n,
{
    if n < 10 {
        seq![digit(n)]
    } else {
        dec(n / 10).push(digit(n % 10))
    }
}

/// The decimal numeral of `n`.
pub fn decimal(n: u64) -> (s: String)
    ensures
        s@ == dec(n as nat),
    decreases n,
{
    let mut s = if n < 10 {
        String::new()
    } else {
        decimal(n / 10)
    };
    let d: u8 = (n % 10) as u8;
    s.push((0x30 + d) as char);
    proof {
        assert(s@ =~= dec(n as nat));
    }
    s
}

/// The lower-case hexadecimal digit with value `d`.
pub open spec fn hex_digit(d: nat) -> char {
    if d < 10 {
        (0x30 + d) as char
    } else {
        (0x57 + d) as char
    }
}

/// The last `width` hexadecimal digits of `n`, with leading zeros.
pub open spec fn hex(n: nat, width: nat) -> Seq<char>
    decreases width,
{
    if width == 0 {
        Seq::empty()
    } else {
        hex(n / 16, (width - 1) as nat).push(hex_digit(n % 16))
    }
}

/// The last `width` hexadecimal digits of `n`, with leading zeros.
pub fn hexadecimal(n: u64, width: u8) -> (s: String)
    ensures
        s@ == hex(n as nat, width as nat),
    decreases width,
{
    if width == 0 {
        return String::new();
    }
    let mut s = hexadecimal(n / 16, width - 1);
    let d: u8 = (n % 16) as u8;
    if d < 10 {
        s.push((0x30 + d) as char);
    } else {
        s.push((0x57 + d) as char);
    }
    s
}

/// The value of `c` as a digit of base `radix`, where it is one.
pub open spec fn digit_value(c: char, radix: nat) -> Option<nat> {
    let v: int = if '0' <= c <= '9' {
        c as int - 0x30
    } else if 'a' <= c <= 'z' {
        c as int - 0x57
    } else if 'A' <= c <= 'Z' {
        c as int - 0x37
    } else {
        radix as int
    };
    if v < radix {
        Some(v as nat)
    } else {
        None
    }
}

/// Whether every character of `s` is a digit of base `radix`.
pub open spec fn all_digits(s: Seq<char>, radix: nat) -> bool {
    forall|i: int| 0 <= i < s.len() ==> (#[trigger] digit_value(s[i], radix)) is Some
}

/// The number that the digits `s` write in base `radix`.
pub open spec fn digits_number(s: Seq<char>, radix: nat) -> nat
    decreases s.len(),
{
    if s.len() == 0 {
        0
    } else {
        digits_number(s.drop_last(), radix) * radix + digit_value(s.last(), radix)->0
    }
}

/// `s` without a leading `+`, where something follows it.
pub open spec fn unsigned_digits(s: Seq<char>) -> Seq<char> {
    if s.len() > 1 && s[0] == '+' {
        s.skip(1)
    } else {
        s
    }
}

/// The number that `s` writes in base `radix`: one or more digits, optionally
/// behind a `+`, with a value of at most `max`.
pub open spec fn parse_number(s: Seq<char>, radix: nat, max: nat) -> Option<nat> {
    let d = unsigned_digits(s);
    if d.len() > 0 && all_digits(d, radix) && digits_number(d, radix) <= max {
        Some(digits_number(d, radix))
    } else {
        None
    }
}

fn digit_of(c: char, radix: u32) -> (r: Option<u32>)
    ensures
        match r {
            Some(v) => digit_value(c, radix as nat) == Some(v as nat) && v < radix,
            None => digit_value(c, radix as nat) is None,
        },
{
    let v: u32 = if '0' <= c && c <= '9' {
        c as u32 - 0x30
    } else if 'a' <= c && c <= 'z' {
        c as u32 - 0x57
    } else if 'A' <= c && c <= 'Z' {
        c as u32 - 0x37
    } else {
        radix
    };
    if v < radix {
        Some(v)
    } else {
        None
    }
}

proof fn lemma_prefix_number_le(s: Seq<char>, i: int, radix: nat)
    requires
        0 <= i <= s.len(),
        radix >= 1,
    ensures
        digits_number(s.take(i), radix) <= digits_number(s, radix),
    decreases s.len() - i,
{
    if i < s.len() {
        lemma_prefix_number_le(s, i + 1, radix);
        let t = s.take(i + 1);
        assert(t.drop_last() =~= s.take(i));
        assert(digits_number(s.take(i), radix) <= digits_number(s.take(i), radix) * radix)
            by (nonlinear_arith)
            requires
                radix >= 1,
        ;
    } else {
        assert(s.take(i) =~= s);
    }
}

/// Reads a number of base `radix` that is at most `max`.
pub fn parse_uint(s: &[char], radix: u32, max: u64) -> (r: Option<u64>)
    requires
        2 <= radix <= 36,
    ensures
        match r {
            Some(v) => parse_number(s@, radix as nat, max as nat) == Some(v as nat),
            None => parse_number(s@, radix as nat, max as nat) is None,
        },
{
    let ghost d = unsigned_digits(s@);
    let start: usize = if s.len() > 1 && s[0] == '+' {
        1
    } else {
        0
    };
    if s.len() == start {
        return None;
    }
    let mut acc: u64 = 0;
    let mut i: usize = start;
    assert(d.take(0) =~= Seq::<char>::empty());
    while i < s.len()
        invariant
            start <= i <= s.len(),
            start <= 1,
            2 <= radix <= 36,
            d == unsigned_digits(s@),
            d.len() == s.len() - start,
            d.len() > 0,
            forall|k: int| 0 <= k < d.len() ==> d[k] == s@[k + start],
            forall|k: int|
                0 <= k < i - start ==> (#[trigger] digit_value(d[k], radix as nat)) is Some,
            acc as nat == digits_number(d.take(i - start), radix as nat),
            acc <= max,
        decreases s.len() - i,
    {
        let ghost k = i - start;
        assert(d[k] == s@[i as int]);
        match digit_of(s[i], radix) {
            None => {
                assert(digit_value(d[k], radix as nat) is None);
                return None;
            },
            Some(v) => {
                assert(d.take(k + 1).drop_last() =~= d.take(k));
                assert(d.take(k + 1).last() == d[k]);
                assert(acc * radix <= u64::MAX * 36) by (nonlinear_arith)
                    requires
                        acc <= u64::MAX,
                        radix <= 36,
                ;
                let wide: u128 = (acc as u128) * (radix as u128) + (v as u128);
                assert(wide == digits_number(d.take(k + 1), radix as nat));
                if wide > max as u128 {
                    proof {
                        lemma_prefix_number_le(d, k + 1, radix as nat);
                    }
                    return None;
                }
                acc = wide as u64;
            },
        }
        i = i + 1;
    }
    assert(d.take(d.len() as int) =~= d);
    Some(acc)
}

// ---------------------------------------------------------------------------
// White space
// ---------------------------------------------------------------------------

/// Unicode's `White_Space` property.
pub open spec fn is_white_space(c: char) -> bool {
    let v = c as int;
    ||| 0x09 <= v <= 0x0d
    ||| v == 0x20
    ||| v == 0x85
    ||| v == 0xa0
    ||| v == 0x1680
    ||| 0x2000 <= v <= 0x200a
    ||| v == 0x2028
    ||| v == 0x2029
    ||| v == 0x202f
    ||| v == 0x205f
    ||| v == 0x3000
}

/// Whether `c` is white space.
pub fn white_space(c: char) -> (r: bool)
    ensures
        r == is_white_space(c),
{
    let v: u32 = c as u32;
    (0x09 <= v && v <= 0x0d) || v == 0x20 || v == 0x85 || v == 0xa0 || v == 0x1680
        || (0x2000 <= v && v <= 0x200a) || v == 0x2028 || v == 0x2029 || v == 0x202f
        || v == 0x205f || v == 0x3000
}

/// `s` without its leading white space.
pub open spec fn trim_start(s: Seq<char>) -> Seq<char>
    decreases s.len(),
{
    if s.len() > 0 && is_white_space(s[0]) {
        trim_start(s.skip(1))
    } else {
        s
    }
}

/// `s` without its trailing white space.
pub open spec fn trim_end(s: Seq<char>) -> Seq<char>
    decreases s.len(),
{
    if s.len() > 0 && is_white_space(s.last()) {
        trim_end(s.drop_last())
    } else {
        s
    }
}

/// `s` without the white space around it.
pub open spec fn trim(s: Seq<char>) -> Seq<char> {
    trim_end(trim_start(s))
}

/// `s` without its leading white space.
pub fn trimmed_start(s: &[char]) -> (r: &[char])
    ensures
        r@ == trim_start(s@),
{
    let mut i: usize = 0;
    assert(s@.skip(0) =~= s@);
    while i < s.len() && white_space(s[i])
        invariant
            i <= s.len(),
            trim_start(s@.skip(i as int)) == trim_start(s@),
        decreases s.len() - i,
    {
        assert(s@.skip(i as int).skip(1) =~= s@.skip(i + 1));
        i = i + 1;
    }
    assert(s@.subrange(i as int, s@.len() as int) =~= s@.skip(i as int));
    vstd::slice::slice_subrange(s, i, s.len())
}

/// `s` without its trailing white space.
pub fn trimmed_end(s: &[char]) -> (r: &[char])
    ensures
        r@ == trim_end(s@),
{
    let mut n: usize = s.len();
    assert(s@.take(n as int) =~= s@);
    while n > 0 && white_space(s[n - 1])
        invariant
            n <= s.len(),
            trim_end(s@.take(n as int)) == trim_end(s@),
        decreases n,
    {
        assert(s@.take(n as int).drop_last() =~= s@.take(n - 1));
        assert(s@.take(n as int).last() == s@[n - 1]);
        n = n - 1;
    }
    assert(s@.subrange(0, n as int) =~= s@.take(n as int));
    vstd::slice::slice_subrange(s, 0, n)
}

/// `s` without the white space around it.
pub fn trimmed(s: &[char]) -> (r: &[char])
    ensures
        r@ == trim(s@),
{
    trimmed_end(trimmed_start(s))
}

// ---------------------------------------------------------------------------
// Searching
// ---------------------------------------------------------------------------

/// The index of the first `c` in `s`, or the length of `s` where there is none.
pub open spec fn find(s: Seq<char>, c: char) -> int
    decreases s.len(),
{
    if s.len() == 0 || s[0] == c {
        0
    } else {
        1 + find(s.skip(1), c)
    }
}

/// What `find` returns: the first place that holds `c`.
pub proof fn lemma_find(s: Seq<char>, c: char)
    ensures
        0 <= find(s, c) <= s.len(),
        find(s, c) < s.len() ==> s[find(s, c)] == c,
        forall|i: int| 0 <= i < find(s, c) ==> s[i] != c,
    decreases s.len(),
{
    if s.len() > 0 && s[0] != c {
        lemma_find(s.skip(1), c);
        assert forall|i: int| 0 <= i < find(s, c) implies s[i] != c by {
            if i > 0 {
                assert(s.skip(1)[i - 1] == s[i]);
            }
        }
    }
}

/// The first place that holds `c` is the one `find` names.
pub proof fn lemma_find_unique(s: Seq<char>, c: char, i: int)
    requires
        0 <= i <= s.len(),
        forall|k: int| 0 <= k < i ==> s[k] != c,
        i == s.len() || s[i] == c,
    ensures
        find(s, c) == i,
{
    lemma_find(s, c);
    if find(s, c) < i {
        assert(s[find(s, c)] != c);
    } else if find(s, c) > i {
        assert(s[i] != c);
    }
}

/// The index of the first `c` in `s`, or the length of `s` where there is none.
pub fn find_char(s: &[char], c: char) -> (r: usize)
    ensures
        r == find(s@, c),
        r <= s.len(),
{
    let mut i: usize = 0;
    while i < s.len() && s[i] != c
        invariant
            i <= s.len(),
            forall|k: int| 0 <= k < i ==> s@[k] != c,
        decreases s.len() - i,
    {
        i = i + 1;
    }
    proof {
        lemma_find_unique(s@, c, i as int);
    }
    i
}

/// Whether `s` begins with `p`.
pub open spec fn has_prefix(s: Seq<char>, p: Seq<char>) -> bool {
    p.len() <= s.len() && s.take(p.len() as int) == p
}

/// Whether `s` begins with `p`.
pub fn starts_with(s: &[char], p: &[char]) -> (r: bool)
    ensures
        r == has_prefix(s@, p@),
{
    if p.len() > s.len() {
        return false;
    }
    let mut i: usize = 0;
    while i < p.len()
        invariant
            i <= p.len() <= s.len(),
            forall|k: int| 0 <= k < i ==> s@[k] == p@[k],
        decreases p.len() - i,
    {
        if s[i] != p[i] {
            assert(s@.take(p@.len() as int)[i as int] == s@[i as int]);
            return false;
        }
        i = i + 1;
    }
    assert(s@.take(p@.len() as int) =~= p@);
    true
}

/// A copy of `s`.
pub fn copied(s: &[char]) -> (v: Vec<char>)
    ensures
        v@ == s@,
{
    vstd::slice::slice_to_vec(s)
}

// ---------------------------------------------------------------------------
// Order
// ---------------------------------------------------------------------------

/// The order of strings: by the first character in which they differ, a prefix
/// before what it begins. On UTF-8 this is the order of the bytes.
pub open spec fn less(a: Seq<char>, b: Seq<char>) -> bool
    decreases a.len(),
{
    if b.len() == 0 {
        false
    } else if a.len() == 0 {
        true
    } else if a[0] != b[0] {
        (a[0] as int) < (b[0] as int)
    } else {
        less(a.skip(1), b.skip(1))
    }
}

/// No string is before itself, and of two strings one is before the other.
pub proof fn lemma_less_total(a: Seq<char>, b: Seq<char>)
    ensures
        !less(a, a),
        less(a, b) || less(b, a) || a == b,
        !(less(a, b) && less(b, a)),
    decreases a.len(),
{
    if a.len() > 0 {
        lemma_less_total(a.skip(1), b.skip(1));
        if b.len() > 0 && a[0] == b[0] && a.skip(1) == b.skip(1) {
            assert(a =~= seq![a[0]] + a.skip(1));
            assert(b =~= seq![b[0]] + b.skip(1));
        }
    } else if b.len() == 0 {
        assert(a =~= b);
    }
}

/// The order of strings is transitive.
pub proof fn lemma_less_transitive(a: Seq<char>, b: Seq<char>, c: Seq<char>)
    requires
        less(a, b),
        less(b, c),
    ensures
        less(a, c),
    decreases a.len(),
{
    if a.len() > 0 && a[0] == b[0] && b[0] == c[0] {
        lemma_less_transitive(a.skip(1), b.skip(1), c.skip(1));
    }
}

/// Whether `a` comes before `b`.
pub fn is_less(a: &str, b: &str) -> (r: bool)
    ensures
        r == less(a@, b@),
{
    let x = chars_of(a);
    let y = chars_of(b);
    let mut i: usize = 0;
    assert(x@.skip(0) =~= x@);
    assert(y@.skip(0) =~= y@);
    while i < x.len() && i < y.len()
        invariant
            i <= x.len(),
            i <= y.len(),
            x@ == a@,
            y@ == b@,
            less(x@.skip(i as int), y@.skip(i as int)) == less(a@, b@),
        decreases x.len() - i,
    {
        if x[i] != y[i] {
            return x[i] < y[i];
        }
        assert(x@.skip(i as int).skip(1) =~= x@.skip(i + 1));
        assert(y@.skip(i as int).skip(1) =~= y@.skip(i + 1));
        i = i + 1;
    }
    i < y.len()
}

/// Whether the strings `s` are in order, none twice.
pub open spec fn sorted(s: Seq<Seq<char>>) -> bool {
    forall|i: int, j: int| 0 <= i < j < s.len() ==> less(#[trigger] s[i], #[trigger] s[j])
}

/// The characters of each string of `v`.
pub open spec fn views(v: Seq<String>) -> Seq<Seq<char>> {
    Seq::new(v.len(), |i: int| v[i]@)
}

/// The index of the first `x` in `s`, or the length of `s` where there is none.
pub open spec fn position<T>(s: Seq<T>, x: T) -> int
    decreases s.len(),
{
    if s.len() == 0 || s[0] == x {
        0
    } else {
        1 + position(s.skip(1), x)
    }
}

/// What `position` returns: the first place that holds `x`.
pub proof fn lemma_position<T>(s: Seq<T>, x: T)
    ensures
        0 <= position(s, x) <= s.len(),
        position(s, x) < s.len() ==> s[position(s, x)] == x,
        forall|i: int| 0 <= i < position(s, x) ==> s[i] != x,
        position(s, x) < s.len() <==> s.contains(x),
    decreases s.len(),
{
    if s.len() > 0 && s[0] != x {
        lemma_position(s.skip(1), x);
        assert forall|i: int| 0 <= i < position(s, x) implies s[i] != x by {
            if i > 0 {
                assert(s.skip(1)[i - 1] == s[i]);
            }
        }
    }
    if s.contains(x) {
        let k = choose|k: int| 0 <= k < s.len() && s[k] == x;
        assert(position(s, x) <= k);
    }
}

/// The first place that holds `x` is the one `position` names.
pub proof fn lemma_position_unique<T>(s: Seq<T>, x: T, i: int)
    requires
        0 <= i <= s.len(),
        forall|k: int| 0 <= k < i ==> s[k] != x,
        i == s.len() || s[i] == x,
    ensures
        position(s, x) == i,
{
    lemma_position(s, x);
    if position(s, x) < i {
        assert(s[position(s, x)] != x);
    } else if position(s, x) > i {
        assert(s[i] != x);
    }
}

// ---------------------------------------------------------------------------
// Sorted lists of strings
// ---------------------------------------------------------------------------

/// A list in order holds no string twice.
pub proof fn lemma_sorted_distinct(s: Seq<Seq<char>>)
    requires
        sorted(s),
    ensures
        s.no_duplicates(),
{
    assert forall|i: int, j: int| 0 <= i < s.len() && 0 <= j < s.len() && i != j implies s[i]
        != s[j] by {
        if i < j {
            lemma_less_total(s[i], s[j]);
        } else {
            lemma_less_total(s[j], s[i]);
        }
    }
}

/// A list in order is as long as the set of its members, however often they
/// occur in another list.
pub proof fn lemma_sorted_count(a: Seq<Seq<char>>, b: Seq<Seq<char>>)
    requires
        sorted(a),
        forall|x: Seq<char>| a.contains(x) <==> b.contains(x),
    ensures
        a.len() == b.to_set().len(),
{
    lemma_sorted_distinct(a);
    a.unique_seq_to_set();
    assert(a.to_set() =~= b.to_set());
}

/// Two lists in order that hold the same strings are the same list.
pub proof fn lemma_sorted_unique(a: Seq<Seq<char>>, b: Seq<Seq<char>>)
    requires
        sorted(a),
        sorted(b),
        forall|x: Seq<char>| a.contains(x) <==> b.contains(x),
    ensures
        a == b,
    decreases a.len(),
{
    if a.len() == 0 || b.len() == 0 {
        if a.len() > 0 {
            assert(a.contains(a[0]));
        }
        if b.len() > 0 {
            assert(b.contains(b[0]));
        }
        assert(a =~= b);
    } else {
        let x = a.last();
        let y = b.last();
        assert(a.contains(x) && b.contains(y));
        let i = choose|i: int| 0 <= i < b.len() && b[i] == x;
        let j = choose|j: int| 0 <= j < a.len() && a[j] == y;
        lemma_less_total(x, y);
        assert(x == y) by {
            if i < b.len() - 1 {
                assert(less(b[i], b[b.len() - 1]));
            }
            if j < a.len() - 1 {
                assert(less(a[j], a[a.len() - 1]));
            }
        }
        let a1 = a.drop_last();
        let b1 = b.drop_last();
        lemma_sorted_distinct(a);
        lemma_sorted_distinct(b);
        assert forall|z: Seq<char>| a1.contains(z) == b1.contains(z) by {
            if a1.contains(z) {
                let k = choose|k: int| 0 <= k < a1.len() && a1[k] == z;
                assert(a[k] == z);
                assert(a.contains(z));
                let m = choose|m: int| 0 <= m < b.len() && b[m] == z;
                assert(b1[m] == z);
            }
            if b1.contains(z) {
                let k = choose|k: int| 0 <= k < b1.len() && b1[k] == z;
                assert(b[k] == z);
                assert(b.contains(z));
                let m = choose|m: int| 0 <= m < a.len() && a[m] == z;
                assert(a1[m] == z);
            }
        }
        lemma_sorted_unique(a1, b1);
        assert(a =~= a1.push(x));
        assert(b =~= b1.push(y));
    }
}

/// How many strings of a list in order come before `x`.
pub open spec fn rank(s: Seq<Seq<char>>, x: Seq<char>) -> int
    decreases s.len(),
{
    if s.len() == 0 || !less(s[0], x) {
        0
    } else {
        1 + rank(s.skip(1), x)
    }
}

/// What `rank` returns on a list in order.
pub proof fn lemma_rank(s: Seq<Seq<char>>, x: Seq<char>)
    requires
        sorted(s),
    ensures
        0 <= rank(s, x) <= s.len(),
        forall|i: int| 0 <= i < rank(s, x) ==> less(#[trigger] s[i], x),
        forall|i: int| rank(s, x) <= i < s.len() ==> !less(#[trigger] s[i], x),
        s.contains(x) <==> (rank(s, x) < s.len() && s[rank(s, x)] == x),
    decreases s.len(),
{
    if s.len() > 0 {
        let t = s.skip(1);
        assert forall|i: int, j: int| 0 <= i < j < t.len() implies less(
            #[trigger] t[i],
            #[trigger] t[j],
        ) by {
            assert(less(s[i + 1], s[j + 1]));
        }
        if less(s[0], x) {
            lemma_rank(t, x);
            assert forall|i: int| 0 <= i < rank(s, x) implies less(#[trigger] s[i], x) by {
                if i > 0 {
                    assert(less(t[i - 1], x));
                }
            }
            assert forall|i: int| rank(s, x) <= i < s.len() implies !less(#[trigger] s[i], x) by {
                assert(!less(t[i - 1], x));
            }
        } else {
            assert forall|i: int| 0 <= i < s.len() implies !less(#[trigger] s[i], x) by {
                if i > 0 && less(s[i], x) {
                    assert(less(s[0], s[i]));
                    lemma_less_transitive(s[0], s[i], x);
                }
            }
        }
    }
    if s.contains(x) {
        let k = choose|k: int| 0 <= k < s.len() && s[k] == x;
        lemma_less_total(x, x);
        let r = rank(s, x);
        if r < k {
            assert(less(s[r], s[k]));
        } else if r > k {
            assert(less(s[k], x));
        }
    }
}

/// `x` put into a list in order, at its place.
pub proof fn lemma_sorted_insert(s: Seq<Seq<char>>, x: Seq<char>)
    requires
        sorted(s),
        !s.contains(x),
    ensures
        0 <= rank(s, x) <= s.len(),
        sorted(s.insert(rank(s, x), x)),
        forall|y: Seq<char>|
            (#[trigger] s.insert(rank(s, x), x).contains(y)) <==> (y == x || s.contains(y)),
{
    lemma_rank(s, x);
    let r = rank(s, x);
    let t = s.insert(r, x);
    assert forall|i: int, j: int| 0 <= i < j < t.len() implies less(
        #[trigger] t[i],
        #[trigger] t[j],
    ) by {
        if i == r {
            lemma_less_total(x, s[j - 1]);
            assert(s.contains(s[j - 1]));
        } else if j == r {
            assert(less(s[i], x));
        } else {
            let a = if i < r { i } else { i - 1 };
            let b = if j < r { j } else { j - 1 };
            assert(less(s[a], s[b]));
        }
    }
    assert forall|y: Seq<char>| (#[trigger] t.contains(y)) <==> (y == x || s.contains(y)) by {
        if t.contains(y) {
            let k = choose|k: int| 0 <= k < t.len() && t[k] == y;
            if k < r {
                assert(s[k] == y);
            } else if k > r {
                assert(s[k - 1] == y);
            }
        }
        if y == x {
            assert(t[r] == y);
        }
        if s.contains(y) {
            let k = choose|k: int| 0 <= k < s.len() && s[k] == y;
            if k < r {
                assert(t[k] == y);
            } else {
                assert(t[k + 1] == y);
            }
        }
    }
}

/// How many strings of `v` come before `x`.
pub fn rank_of(v: &Vec<String>, x: &str) -> (r: usize)
    requires
        sorted(views(v@)),
    ensures
        r == rank(views(v@), x@),
        r <= v.len(),
{
    let mut i: usize = 0;
    assert(views(v@).skip(0) =~= views(v@));
    while i < v.len() && is_less(v[i].as_str(), x)
        invariant
            i <= v.len(),
            rank(views(v@), x@) == i + rank(views(v@).skip(i as int), x@),
        decreases v.len() - i,
    {
        assert(views(v@).skip(i as int).skip(1) =~= views(v@).skip(i + 1));
        i = i + 1;
    }
    i
}

/// `v` with `x` put in at its place, where it was not there yet.
pub open spec fn with_string(s: Seq<Seq<char>>, x: Seq<char>) -> Seq<Seq<char>> {
    if s.contains(x) {
        s
    } else {
        s.insert(rank(s, x), x)
    }
}

/// Puts `x` into the list `v` at its place, unless it is there.
pub fn insert_sorted(v: &mut Vec<String>, x: &str)
    requires
        sorted(views(old(v)@)),
    ensures
        sorted(views(final(v)@)),
        views(final(v)@) == with_string(views(old(v)@), x@),
        final(v)@.len() <= old(v)@.len() + 1,
        forall|y: Seq<char>|
            (#[trigger] views(final(v)@).contains(y)) <==> (y == x@ || views(
                old(v)@,
            ).contains(y)),
{
    let r: usize = rank_of(v, x);
    proof {
        lemma_rank(views(v@), x@);
    }
    if r < v.len() && same(v[r].as_str(), x) {
        return;
    }
    let ghost before = v@;
    proof {
        lemma_sorted_insert(views(v@), x@);
    }
    v.insert(r, owned(x));
    assert(views(v@) =~= views(before).insert(r as int, x@));
}

// ---------------------------------------------------------------------------
// Optional strings, lines, other trimming
// ---------------------------------------------------------------------------

/// The characters of an optional string.
pub open spec fn opt_view(o: Option<String>) -> Option<Seq<char>> {
    match o {
        Some(s) => Some(s@),
        None => None,
    }
}

/// A copy of an optional string.
pub fn opt_copy(o: &Option<String>) -> (r: Option<String>)
    ensures
        opt_view(r) == opt_view(*o),
{
    match o {
        Some(s) => Some(s.clone()),
        None => None,
    }
}

/// An owned copy of an optional string slice.
pub fn opt_owned(o: Option<&str>) -> (r: Option<String>)
    ensures
        match o {
            Some(s) => opt_view(r) == Some(s@),
            None => opt_view(r) is None,
        },
{
    match o {
        Some(s) => Some(owned(s)),
        None => None,
    }
}

/// Whether an optional string is the string `s`.
pub fn opt_is(o: &Option<String>, s: &str) -> (r: bool)
    ensures
        r == (opt_view(*o) == Some(s@)),
{
    match o {
        Some(t) => same(t.as_str(), s),
        None => false,
    }
}

/// `s` without the `c`s it begins with.
pub open spec fn trim_start_char(s: Seq<char>, c: char) -> Seq<char>
    decreases s.len(),
{
    if s.len() > 0 && s[0] == c {
        trim_start_char(s.skip(1), c)
    } else {
        s
    }
}

/// `s` without the `c`s it ends with.
pub open spec fn trim_end_char(s: Seq<char>, c: char) -> Seq<char>
    decreases s.len(),
{
    if s.len() > 0 && s.last() == c {
        trim_end_char(s.drop_last(), c)
    } else {
        s
    }
}

/// `s` without the `c`s it begins and ends with.
pub open spec fn trim_char(s: Seq<char>, c: char) -> Seq<char> {
    trim_end_char(trim_start_char(s, c), c)
}

/// `s` without the `c`s it begins with.
pub fn trimmed_start_char(s: &[char], c: char) -> (r: &[char])
    ensures
        r@ == trim_start_char(s@, c),
{
    let mut i: usize = 0;
    assert(s@.skip(0) =~= s@);
    while i < s.len() && s[i] == c
        invariant
            i <= s.len(),
            trim_start_char(s@.skip(i as int), c) == trim_start_char(s@, c),
        decreases s.len() - i,
    {
        assert(s@.skip(i as int).skip(1) =~= s@.skip(i + 1));
        i = i + 1;
    }
    assert(s@.subrange(i as int, s@.len() as int) =~= s@.skip(i as int));
    vstd::slice::slice_subrange(s, i, s.len())
}

/// `s` without the `c`s it ends with.
pub fn trimmed_end_char(s: &[char], c: char) -> (r: &[char])
    ensures
        r@ == trim_end_char(s@, c),
{
    let mut n: usize = s.len();
    assert(s@.take(n as int) =~= s@);
    while n > 0 && s[n - 1] == c
        invariant
            n <= s.len(),
            trim_end_char(s@.take(n as int), c) == trim_end_char(s@, c),
        decreases n,
    {
        assert(s@.take(n as int).drop_last() =~= s@.take(n - 1));
        assert(s@.take(n as int).last() == s@[n - 1]);
        n = n - 1;
    }
    assert(s@.subrange(0, n as int) =~= s@.take(n as int));
    vstd::slice::slice_subrange(s, 0, n)
}

/// `s` without the `c`s it begins and ends with.
pub fn trimmed_char(s: &[char], c: char) -> (r: &[char])
    ensures
        r@ == trim_char(s@, c),
{
    trimmed_end_char(trimmed_start_char(s, c), c)
}

/// The index of the first `a` or `b` in `s`, or the length of `s`.
pub open spec fn find_either(s: Seq<char>, a: char, b: char) -> int
    decreases s.len(),
{
    if s.len() == 0 || s[0] == a || s[0] == b {
        0
    } else {
        1 + find_either(s.skip(1), a, b)
    }
}

/// The index of the first `a` or `b` in `s`, or the length of `s`.
pub fn find_either_char(s: &[char], a: char, b: char) -> (r: usize)
    ensures
        r == find_either(s@, a, b),
        r <= s.len(),
{
    let mut i: usize = 0;
    assert(s@.skip(0) =~= s@);
    while i < s.len() && s[i] != a && s[i] != b
        invariant
            i <= s.len(),
            find_either(s@, a, b) == i + find_either(s@.skip(i as int), a, b),
        decreases s.len() - i,
    {
        assert(s@.skip(i as int).skip(1) =~= s@.skip(i + 1));
        i = i + 1;
    }
    i
}

/// The lines of `s`: what stands before each newline, and what follows the
/// last one where that is not empty.
pub open spec fn lines(s: Seq<char>) -> Seq<Seq<char>>
    decreases s.len(),
{
    if s.len() == 0 {
        Seq::empty()
    } else {
        let k = find(s, '\n');
        proof {
            lemma_find(s, '\n');
        }
        if k < s.len() {
            seq![s.take(k)] + lines(s.skip(k + 1))
        } else {
            seq![s]
        }
    }
}

/// The lines of `s`.
pub fn lines_of(s: &[char]) -> (r: Vec<Vec<char>>)
    ensures
        r@.len() == lines(s@).len(),
        forall|i: int| 0 <= i < r@.len() ==> (#[trigger] r@[i])@ == lines(s@)[i],
{
    let mut out: Vec<Vec<char>> = Vec::new();
    let mut i: usize = 0;
    assert(s@.skip(0) =~= s@);
    while i < s.len()
        invariant
            i <= s.len(),
            out@.len() <= lines(s@).len(),
            lines(s@.skip(i as int)) == lines(s@).skip(out@.len() as int),
            forall|k: int| 0 <= k < out@.len() ==> (#[trigger] out@[k])@ == lines(s@)[k],
        decreases s.len() - i,
    {
        let tail = vstd::slice::slice_subrange(s, i, s.len());
        let ghost rest = s@.skip(i as int);
        let ghost done = out@.len() as int;
        assert(tail@ =~= rest);
        proof {
            lemma_find(rest, '\n');
        }
        let k: usize = find_char(tail, '\n');
        let line = vstd::slice::slice_subrange(tail, 0, k);
        assert(line@ =~= rest.take(k as int));
        assert(lines(rest)[0] =~= line@) by {
            if k == tail.len() {
                assert(rest.take(k as int) =~= rest);
            }
        }
        assert(lines(rest).len() >= 1);
        assert(done < lines(s@).len());
        assert(lines(s@).skip(done)[0] == lines(s@)[done]);
        out.push(copied(line));
        if k < tail.len() {
            proof {
                assert(rest.skip(k + 1) =~= s@.skip(i + k + 1));
                assert(lines(rest).skip(1) =~= lines(rest.skip(k + 1)));
                assert(lines(s@).skip(done + 1) =~= lines(s@).skip(done).skip(1));
            }
            i = i + k + 1;
        } else {
            proof {
                assert(lines(rest).skip(1) =~= Seq::<Seq<char>>::empty());
                assert(lines(s@).skip(done + 1) =~= lines(s@).skip(done).skip(1));
                assert(s@.skip(s@.len() as int) =~= Seq::<char>::empty());
            }
            i = s.len();
        }
    }
    proof {
        assert(s@.skip(i as int) =~= Seq::<char>::empty());
        assert(lines(s@).skip(out@.len() as int).len() == 0);
    }
    out
}

// ---------------------------------------------------------------------------
// Pairs of characters, ASCII case, UTF-8
// ---------------------------------------------------------------------------

/// Whether `a` and then `b` stand at the beginning of `s`.
pub open spec fn at_pair(s: Seq<char>, a: char, b: char) -> bool {
    s.len() > 1 && s[0] == a && s[1] == b
}

/// The index of the first `a` that a `b` follows, or the length of `s`.
pub open spec fn find_pair(s: Seq<char>, a: char, b: char) -> int
    decreases s.len(),
{
    if s.len() == 0 || at_pair(s, a, b) {
        0
    } else {
        1 + find_pair(s.skip(1), a, b)
    }
}

/// What `find_pair` returns.
pub proof fn lemma_find_pair(s: Seq<char>, a: char, b: char)
    ensures
        0 <= find_pair(s, a, b) <= s.len(),
        find_pair(s, a, b) < s.len() ==> find_pair(s, a, b) + 1 < s.len() && s[find_pair(s, a, b)]
            == a && s[find_pair(s, a, b) + 1] == b,
        forall|i: int|
            0 <= i < find_pair(s, a, b) && i + 1 < s.len() ==> !(#[trigger] s[i] == a && s[i + 1]
                == b),
    decreases s.len(),
{
    if s.len() > 0 && !at_pair(s, a, b) {
        let t = s.skip(1);
        lemma_find_pair(t, a, b);
        let k = find_pair(t, a, b);
        if k < t.len() {
            assert(t[k] == s[k + 1] && t[k + 1] == s[k + 2]);
        }
        assert forall|i: int| 0 <= i < find_pair(s, a, b) && i + 1 < s.len() implies !(
        #[trigger] s[i] == a && s[i + 1] == b) by {
            if i > 0 {
                assert(t[i - 1] == s[i] && t[i] == s[i + 1]);
            }
        }
    }
}

/// The first pair is the one that `find_pair` names.
pub proof fn lemma_find_pair_unique(s: Seq<char>, a: char, b: char, i: int)
    requires
        0 <= i <= s.len(),
        i < s.len() ==> i + 1 < s.len() && s[i] == a && s[i + 1] == b,
        forall|k: int| 0 <= k < i && k + 1 < s.len() ==> !(#[trigger] s[k] == a && s[k + 1] == b),
    ensures
        find_pair(s, a, b) == i,
{
    lemma_find_pair(s, a, b);
    let k = find_pair(s, a, b);
    if k < i {
        assert(s[k] == a && s[k + 1] == b);
    } else if k > i {
        assert(s[i] == a && s[i + 1] == b);
    }
}

/// The index of the first `a` that a `b` follows, or the length of `s`.
pub fn find_char_pair(s: &[char], a: char, b: char) -> (r: usize)
    ensures
        r == find_pair(s@, a, b),
        r <= s.len(),
        r < s.len() ==> r + 1 < s.len(),
{
    let mut i: usize = 0;
    while i < s.len() && !(s.len() - i > 1 && s[i] == a && s[i + 1] == b)
        invariant
            i <= s.len(),
            forall|k: int|
                0 <= k < i && k + 1 < s@.len() ==> !(#[trigger] s@[k] == a && s@[k + 1] == b),
        decreases s.len() - i,
    {
        i = i + 1;
    }
    proof {
        lemma_find_pair_unique(s@, a, b, i as int);
    }
    i
}

/// The index of the last `a` that a `b` follows, or -1.
pub open spec fn find_last_pair(s: Seq<char>, a: char, b: char) -> int
    decreases s.len(),
{
    if s.len() < 2 {
        -1
    } else if s[s.len() - 2] == a && s[s.len() - 1] == b {
        s.len() - 2
    } else {
        find_last_pair(s.drop_last(), a, b)
    }
}

/// The index of the last `a` that a `b` follows.
pub fn find_last_char_pair(s: &[char], a: char, b: char) -> (r: Option<usize>)
    ensures
        match r {
            Some(i) => i == find_last_pair(s@, a, b) && i + 1 < s.len(),
            None => find_last_pair(s@, a, b) < 0,
        },
{
    let mut n: usize = s.len();
    assert(s@.take(n as int) =~= s@);
    while n >= 2
        invariant
            n <= s.len(),
            find_last_pair(s@, a, b) == find_last_pair(s@.take(n as int), a, b),
        decreases n,
    {
        assert(s@.take(n as int).drop_last() =~= s@.take(n - 1));
        if s[n - 2] == a && s[n - 1] == b {
            return Some(n - 2);
        }
        n = n - 1;
    }
    None
}

/// An ASCII letter in lower case; any other character as it is.
pub open spec fn ascii_lower(c: char) -> char {
    if 'A' <= c <= 'Z' {
        (c as int + 0x20) as char
    } else {
        c
    }
}

/// An ASCII letter in upper case; any other character as it is.
pub open spec fn ascii_upper(c: char) -> char {
    if 'a' <= c <= 'z' {
        (c as int - 0x20) as char
    } else {
        c
    }
}

/// Whether `c` is an ASCII letter.
pub open spec fn is_ascii_letter(c: char) -> bool {
    'a' <= c <= 'z' || 'A' <= c <= 'Z'
}

/// Whether two strings differ in the case of ASCII letters at most.
pub open spec fn same_ignoring_case(a: Seq<char>, b: Seq<char>) -> bool {
    a.len() == b.len() && forall|i: int|
        0 <= i < a.len() ==> ascii_lower(#[trigger] a[i]) == ascii_lower(b[i])
}

/// `c` in lower case, where it is an ASCII letter.
pub fn to_lower(c: char) -> (r: char)
    ensures
        r == ascii_lower(c),
{
    if 'A' <= c && c <= 'Z' {
        ((c as u8) + 0x20) as char
    } else {
        c
    }
}

/// `c` in upper case, where it is an ASCII letter.
pub fn to_upper(c: char) -> (r: char)
    ensures
        r == ascii_upper(c),
{
    if 'a' <= c && c <= 'z' {
        ((c as u8) - 0x20) as char
    } else {
        c
    }
}

/// Whether two strings differ in the case of ASCII letters at most.
pub fn equal_ignoring_case(a: &[char], b: &[char]) -> (r: bool)
    ensures
        r == same_ignoring_case(a@, b@),
{
    if a.len() != b.len() {
        return false;
    }
    let mut i: usize = 0;
    while i < a.len()
        invariant
            i <= a.len(),
            a.len() == b.len(),
            forall|k: int| 0 <= k < i ==> ascii_lower(#[trigger] a@[k]) == ascii_lower(b@[k]),
        decreases a.len() - i,
    {
        if to_lower(a[i]) != to_lower(b[i]) {
            assert(ascii_lower(a@[i as int]) != ascii_lower(b@[i as int]));
            return false;
        }
        i = i + 1;
    }
    true
}

/// `s` with `b` for each `a`.
pub open spec fn with_replaced(s: Seq<char>, a: char, b: char) -> Seq<char> {
    Seq::new(
        s.len(),
        |i: int|
            if s[i] == a {
                b
            } else {
                s[i]
            },
    )
}

/// Appends `s` to `out`, with `b` for each `a`.
pub fn push_replaced(out: &mut String, s: &[char], a: char, b: char)
    ensures
        final(out)@ == old(out)@ + with_replaced(s@, a, b),
{
    let mut i: usize = 0;
    assert(out@ =~= old(out)@ + with_replaced(s@, a, b).take(0));
    while i < s.len()
        invariant
            i <= s.len(),
            out@ == old(out)@ + with_replaced(s@, a, b).take(i as int),
        decreases s.len() - i,
    {
        let c: char = if s[i] == a {
            b
        } else {
            s[i]
        };
        out.push(c);
        assert(out@ =~= old(out)@ + with_replaced(s@, a, b).take(i + 1));
        i = i + 1;
    }
    assert(with_replaced(s@, a, b).take(i as int) =~= with_replaced(s@, a, b));
}

/// `String::from_utf8` reads bytes as UTF-8: bytes that are valid UTF-8 give the
/// text they encode, any others give none.
#[verifier::external_body]
pub(crate) fn utf8_text(v: Vec<u8>) -> (r: Option<String>)
    ensures
        match r {
            Some(s) => valid_utf8(v@) && s@ == decode_utf8(v@),
            None => !valid_utf8(v@),
        },
{
    String::from_utf8(v).ok()
}

// ---------------------------------------------------------------------------
// UTF-16 lengths, splitting
// ---------------------------------------------------------------------------

/// How many UTF-16 code units a character takes.
pub open spec fn units(c: char) -> nat {
    if c as u32 >= 0x10000 {
        2
    } else {
        1
    }
}

/// How many UTF-16 code units a string takes.
pub open spec fn utf16_len(s: Seq<char>) -> nat
    decreases s.len(),
{
    if s.len() == 0 {
        0
    } else {
        utf16_len(s.drop_last()) + units(s.last())
    }
}

/// The lengths of two strings add up.
pub proof fn lemma_utf16_concat(a: Seq<char>, b: Seq<char>)
    ensures
        utf16_len(a + b) == utf16_len(a) + utf16_len(b),
    decreases b.len(),
{
    if b.len() == 0 {
        assert(a + b =~= a);
    } else {
        lemma_utf16_concat(a, b.drop_last());
        assert((a + b).drop_last() =~= a + b.drop_last());
        assert((a + b).last() == b.last());
    }
}

/// The bytes of two strings follow one another.
pub proof fn lemma_utf8_concat(a: Seq<char>, b: Seq<char>)
    ensures
        encode_utf8(a + b) == encode_utf8(a) + encode_utf8(b),
    decreases a.len(),
{
    if a.len() == 0 {
        assert(a + b =~= b);
        assert(encode_utf8(a) + encode_utf8(b) =~= encode_utf8(b));
    } else {
        lemma_utf8_concat(a.drop_first(), b);
        assert((a + b).drop_first() =~= a.drop_first() + b);
        assert((a + b)[0] == a[0]);
        assert(encode_utf8(a) + encode_utf8(b) =~= encode_scalar(a[0] as u32) + (encode_utf8(
            a.drop_first(),
        ) + encode_utf8(b)));
    }
}

/// A string takes no more UTF-16 units than UTF-8 bytes, and at least one of
/// each for every character.
pub proof fn lemma_utf16_fits(s: Seq<char>)
    ensures
        s.len() <= utf16_len(s) <= encode_utf8(s).len(),
    decreases s.len(),
{
    if s.len() > 0 {
        let t = s.drop_last();
        let c = s.last();
        let one: Seq<char> = seq![c];
        lemma_utf16_fits(t);
        assert(s =~= t + one);
        lemma_utf8_concat(t, one);
        char_is_scalar(c);
        assert(one.drop_first() =~= Seq::<char>::empty());
        assert(encode_utf8(Seq::<char>::empty()).len() == 0);
        assert(encode_utf8(one).len() == encode_scalar(c as u32).len());
    }
}

/// How many UTF-16 code units `s` takes.
pub fn utf16_count(s: &str) -> (r: usize)
    ensures
        r == utf16_len(s@),
{
    let n: usize = s.as_bytes().len();
    let chars = chars_of(s);
    proof {
        lemma_utf16_fits(s@);
    }
    let mut total: usize = 0;
    let mut i: usize = 0;
    assert(s@.take(0) =~= Seq::<char>::empty());
    while i < chars.len()
        invariant
            i <= chars@.len(),
            chars@ == s@,
            utf16_len(s@) <= n,
            total == utf16_len(s@.take(i as int)),
        decreases chars.len() - i,
    {
        proof {
            let t = s@.take(i + 1);
            assert(t.drop_last() =~= s@.take(i as int));
            assert(t + s@.skip(i + 1) =~= s@);
            lemma_utf16_concat(t, s@.skip(i + 1));
        }
        total = total + unit_count(chars[i]);
        i = i + 1;
    }
    assert(s@.take(i as int) =~= s@);
    total
}

/// How many UTF-16 code units `c` takes.
pub fn unit_count(c: char) -> (r: usize)
    ensures
        r == units(c),
{
    if c as u32 >= 0x10000 {
        2
    } else {
        1
    }
}

/// The parts of `s` between the `c`s: one more than there are `c`s.
pub open spec fn split_on(s: Seq<char>, c: char) -> Seq<Seq<char>>
    decreases s.len(),
{
    let k = find(s, c);
    proof {
        lemma_find(s, c);
    }
    if k < s.len() {
        seq![s.take(k)] + split_on(s.skip(k + 1), c)
    } else {
        seq![s]
    }
}

/// The parts of `s` between the `c`s.
pub fn split_chars(s: &[char], c: char) -> (r: Vec<Vec<char>>)
    ensures
        r@.len() == split_on(s@, c).len(),
        forall|i: int| 0 <= i < r@.len() ==> (#[trigger] r@[i])@ == split_on(s@, c)[i],
{
    let mut out: Vec<Vec<char>> = Vec::new();
    let mut from: usize = 0;
    let ghost all = split_on(s@, c);
    assert(s@.skip(0) =~= s@);
    assert(all.skip(0) =~= all);
    loop
        invariant_except_break
            split_on(s@.skip(from as int), c) == all.skip(out@.len() as int),
        invariant
            from <= s@.len(),
            all == split_on(s@, c),
            out@.len() <= all.len(),
            forall|i: int| 0 <= i < out@.len() ==> (#[trigger] out@[i])@ == all[i],
        ensures
            out@.len() == all.len(),
            forall|i: int| 0 <= i < out@.len() ==> (#[trigger] out@[i])@ == all[i],
        decreases s.len() - from,
    {
        let ghost rest = s@.skip(from as int);
        let ghost done = out@.len() as int;
        let tail = vstd::slice::slice_subrange(s, from, s.len());
        assert(tail@ =~= rest);
        proof {
            lemma_find(rest, c);
            assert(split_on(rest, c).len() >= 1);
            assert(done < all.len());
            assert(all.skip(done)[0] == all[done]);
        }
        let k: usize = find_char(tail, c);
        let part = vstd::slice::slice_subrange(tail, 0, k);
        assert(part@ =~= rest.take(k as int));
        out.push(copied(part));
        if k == tail.len() {
            proof {
                assert(rest.take(k as int) =~= rest);
                assert(all.skip(done).len() == 1);
            }
            break;
        }
        proof {
            assert(rest.skip(k + 1) =~= s@.skip(from + k + 1));
            assert(split_on(rest, c).skip(1) =~= split_on(rest.skip(k + 1), c));
            assert(all.skip(done + 1) =~= all.skip(done).skip(1));
        }
        from = from + k + 1;
    }
    out
}

/// What `String::from_utf8_lossy` makes of bytes.
pub uninterp spec fn lossy_text(b: Seq<u8>) -> Seq<char>;

/// Decodes bytes as UTF-8, with `String::from_utf8_lossy`: what is not UTF-8
/// becomes the replacement character, in a way that depends on the bytes alone.
/// Bytes that are UTF-8 are decoded as they stand.
#[verifier::external_body]
pub(crate) fn lossy(b: &[u8]) -> (r: String)
    ensures
        r@ == lossy_text(b@),
        valid_utf8(b@) ==> r@ == decode_utf8(b@),
{
    String::from_utf8_lossy(b).into_owned()
}

/// Whether two names are the same but for the case of their ASCII letters.
pub fn same_name(a: &str, b: &str) -> (r: bool)
    ensures
        r == same_ignoring_case(a@, b@),
{
    let x = chars_of(a);
    let y = chars_of(b);
    equal_ignoring_case(x.as_slice(), y.as_slice())
}

/// The first place at which `p` stands in `s`.
pub open spec fn find_text(s: Seq<char>, p: Seq<char>) -> Option<int>
    decreases s.len(),
{
    if has_prefix(s, p) {
        Some(0)
    } else if s.len() == 0 {
        None
    } else {
        match find_text(s.skip(1), p) {
            Some(k) => Some(k + 1),
            None => None,
        }
    }
}

/// A place at which `p` stands in `s` is one of `s`, with room for `p`.
pub proof fn lemma_find_text(s: Seq<char>, p: Seq<char>)
    ensures
        find_text(s, p) matches Some(k) ==> 0 <= k && k + p.len() <= s.len() && has_prefix(
            s.skip(k),
            p,
        ),
    decreases s.len(),
{
    if has_prefix(s, p) {
        assert(s.skip(0) =~= s);
    } else if s.len() > 0 {
        lemma_find_text(s.skip(1), p);
        if let Some(k) = find_text(s.skip(1), p) {
            assert(s.skip(1).skip(k) =~= s.skip(k + 1));
        }
    }
}

/// The first place at which `p` stands in `s`.
pub fn find_chars(s: &[char], p: &[char]) -> (r: Option<usize>)
    ensures
        match r {
            Some(k) => find_text(s@, p@) == Some(k as int) && k + p@.len() <= s@.len(),
            None => find_text(s@, p@) is None,
        },
{
    let mut i: usize = 0;
    assert(s@.skip(0) =~= s@);
    proof {
        lemma_find_text(s@, p@);
    }
    loop
        invariant
            i <= s@.len(),
            find_text(s@, p@) == (match find_text(s@.skip(i as int), p@) {
                Some(k) => Some(k + i),
                None => None,
            }),
            find_text(s@, p@) matches Some(k) ==> k + p@.len() <= s@.len(),
        decreases s.len() - i,
    {
        let tail = vstd::slice::slice_subrange(s, i, s.len());
        assert(tail@ =~= s@.skip(i as int));
        if starts_with(tail, p) {
            return Some(i);
        }
        if i == s.len() {
            return None;
        }
        assert(s@.skip(i as int).skip(1) =~= s@.skip(i + 1));
        i = i + 1;
    }
}

/// The UTF-16 code units of a character.
pub open spec fn char_units(c: char) -> Seq<nat> {
    let n = c as u32 as nat;
    if n >= 0x10000 {
        seq![(0xD800 + (n - 0x10000) / 0x400) as nat, (0xDC00 + (n - 0x10000) % 0x400) as nat]
    } else {
        seq![n]
    }
}

/// The UTF-16 code units of a string.
pub open spec fn utf16(s: Seq<char>) -> Seq<nat>
    decreases s.len(),
{
    if s.len() == 0 {
        Seq::empty()
    } else {
        utf16(s.drop_last()) + char_units(s.last())
    }
}

/// What `str::to_lowercase` makes of a string.
pub uninterp spec fn lower_text(s: Seq<char>) -> Seq<char>;

/// The lowercase form of a string, with `str::to_lowercase`, which goes by
/// Unicode's tables and by the string alone.
#[verifier::external_body]
pub(crate) fn lowercased(s: &str) -> (r: String)
    ensures
        r@ == lower_text(s@),
{
    s.to_lowercase()
}

/// Code units as numbers.
pub open spec fn unit_values(v: Seq<u16>) -> Seq<nat> {
    Seq::new(v.len(), |i: int| v[i] as nat)
}

/// What `String::from_utf16_lossy` makes of code units.
pub uninterp spec fn utf16_lossy_text(v: Seq<u16>) -> Seq<char>;

/// Decodes code units as UTF-16, with `String::from_utf16_lossy`: what is not
/// UTF-16 becomes the replacement character, in a way that depends on the units
/// alone. The units of a string are decoded to that string.
#[verifier::external_body]
pub(crate) fn utf16_lossy(v: &[u16]) -> (r: String)
    ensures
        r@ == utf16_lossy_text(v@),
        forall|s: Seq<char>| #[trigger] utf16(s) == unit_values(v@) ==> r@ == s,
{
    String::from_utf16_lossy(v)
}

} // verus!
