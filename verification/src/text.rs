//! Character-level string helpers with exact specifications.

use vstd::prelude::*;
use vstd::string::*;
use vstd::std_specs::iter::IteratorSpec;
use vstd::utf8::{encode_utf8, is_char_boundary};

verus! {

broadcast use vstd::string::group_string_axioms;

/// Appending one character to a `String` extends its character sequence by that character.
pub assume_specification[ String::push ](s: &mut String, ch: char)
    ensures
        final(s)@ == old(s)@.push(ch),
;

/// The characters of `s`, in order.
pub fn chars_of(s: &str) -> (v: Vec<char>)
    ensures
        v@ == s@,
{
    let mut it = s.chars();
    let mut v: Vec<char> = Vec::new();
    loop
        invariant
            v@ + it.remaining() == s@,
            it.obeys_prophetic_iter_laws(),
            it.decrease() is Some,
        decreases it.decrease()->0,
    {
        match it.next() {
            Some(c) => {
                v.push(c);
            },
            None => {
                assert(v@ =~= s@);
                return v;
            },
        }
    }
}

/// A `String` holding exactly the characters of `chars`.
pub fn string_from_chars(chars: &[char]) -> (s: String)
    ensures
        s@ == chars@,
{
    let mut s = String::new();
    let n = chars.len();
    for i in 0..n
        invariant
            n == chars@.len(),
            s@ == chars@.take(i as int),
    {
        s.push(chars[i]);
        assert(chars@.take(i + 1) =~= chars@.take(i as int).push(chars@[i as int]));
    }
    assert(chars@.take(n as int) =~= chars@);
    s
}

/// An owned copy of `s`.
pub fn owned(s: &str) -> (r: String)
    ensures
        r@ == s@,
{
    s.to_owned()
}

/// `a` followed by `b`.
pub fn join2(a: &str, b: &str) -> (r: String)
    ensures
        r@ == a@ + b@,
{
    let mut r = a.to_owned();
    r.append(b);
    r
}

/// `a`, `b` and `c` one after the other.
pub fn join3(a: &str, b: &str, c: &str) -> (r: String)
    ensures
        r@ == a@ + b@ + c@,
{
    let mut r = a.to_owned();
    r.append(b);
    r.append(c);
    r
}

/// Whether two strings hold the same characters.
pub fn str_eq(a: &str, b: &str) -> (r: bool)
    ensures
        r == (a@ == b@),
{
    let x = a.to_owned();
    let y = b.to_owned();
    x == y
}

/// Whether `s` begins with `prefix`.
pub open spec fn has_prefix(s: Seq<char>, prefix: Seq<char>) -> bool {
    prefix.len() <= s.len() && s.take(prefix.len() as int) == prefix
}

/// Whether `s` begins with `prefix`.
pub fn starts_with(s: &str, prefix: &str) -> (r: bool)
    ensures
        r == has_prefix(s@, prefix@),
{
    let sc = chars_of(s);
    let pc = chars_of(prefix);
    if pc.len() > sc.len() {
        return false;
    }
    let n = pc.len();
    for i in 0..n
        invariant
            n == pc@.len(),
            n <= sc@.len(),
            sc@ == s@,
            pc@ == prefix@,
            forall|j: int| 0 <= j < i ==> sc@[j] == pc@[j],
    {
        if sc[i] != pc[i] {
            assert(sc@.take(n as int)[i as int] == sc@[i as int]);
            assert(sc@.take(n as int) != pc@);
            return false;
        }
    }
    assert(sc@.take(n as int) =~= pc@);
    true
}

/// The decimal digit character for `d` (for `d < 10`).
pub open spec fn digit_char(d: int) -> char {
    if d == 0 { '0' }
    else if d == 1 { '1' }
    else if d == 2 { '2' }
    else if d == 3 { '3' }
    else if d == 4 { '4' }
    else if d == 5 { '5' }
    else if d == 6 { '6' }
    else if d == 7 { '7' }
    else if d == 8 { '8' }
    else { '9' }
}

fn digit(d: u64) -> (c: char)
    requires
        d < 10,
    ensures
        c == digit_char(d as int),
{
    if d == 0 { '0' }
    else if d == 1 { '1' }
    else if d == 2 { '2' }
    else if d == 3 { '3' }
    else if d == 4 { '4' }
    else if d == 5 { '5' }
    else if d == 6 { '6' }
    else if d == 7 { '7' }
    else if d == 8 { '8' }
    else { '9' }
}

/// The decimal notation of `n`, without leading zeros.
pub open spec fn dec(n: nat) -> Seq<char>
    decreases n,
{
    if n < 10 {
        seq![digit_char(n as int)]
    } else {
        dec(n / 10).push(digit_char((n % 10) as int))
    }
}

/// The decimal notation of a signed integer: a minus sign before the magnitude when negative.
pub open spec fn signed_dec(n: int) -> Seq<char> {
    if n < 0 {
        seq!['-'] + dec((-n) as nat)
    } else {
        dec(n as nat)
    }
}

/// The decimal notation of `n`, as `to_string` writes it.
pub fn u64_text(n: u64) -> (s: String)
    ensures
        s@ == dec(n as nat),
{
    let mut m = n;
    let mut v: Vec<char> = Vec::new();
    while m >= 10
        invariant
            dec(n as nat) == dec(m as nat) + v@,
        decreases m,
    {
        let d = digit(m % 10);
        v.insert(0, d);
        assert(dec(m as nat) == dec((m / 10) as nat).push(digit_char((m % 10) as int)));
        assert(dec(n as nat) =~= dec((m / 10) as nat) + v@);
        m = m / 10;
    }
    let d = digit(m);
    v.insert(0, d);
    assert(dec(n as nat) =~= v@);
    string_from_chars(v.as_slice())
}

/// The decimal notation of `n`, as `to_string` writes it.
pub fn usize_text(n: usize) -> (s: String)
    ensures
        s@ == dec(n as nat),
{
    u64_text(n as u64)
}

/// The decimal notation of `n`, with a leading minus sign when negative, as `to_string` writes it.
pub fn i64_text(n: i64) -> (s: String)
    ensures
        s@ == signed_dec(n as int),
{
    if n < 0 {
        let mag: u64 = if n == i64::MIN {
            9223372036854775808u64
        } else {
            (-n) as u64
        };
        let digits = u64_text(mag);
        proof {
            reveal_strlit("-");
        }
        join2("-", digits.as_str())
    } else {
        u64_text(n as u64)
    }
}

/// Whether `c` is an ASCII decimal digit.
pub open spec fn is_digit(c: char) -> bool {
    48 <= (c as u32) <= 57
}

/// The value of a decimal digit character.
pub open spec fn digit_value(c: char) -> nat {
    ((c as u32) - 48) as nat
}

/// The number written by a sequence of decimal digits (most significant first).
pub open spec fn digits_value(s: Seq<char>) -> nat
    decreases s.len(),
{
    if s.len() == 0 {
        0
    } else {
        digits_value(s.drop_last()) * 10 + digit_value(s.last())
    }
}

/// Whether every character of `s` is a decimal digit.
pub open spec fn all_digits(s: Seq<char>) -> bool {
    forall|i: int| 0 <= i < s.len() ==> #[trigger] is_digit(s[i])
}

/// How `str::parse::<u64>` reads `s`: an optional `+`, then at least one decimal digit,
/// with a value that fits in 64 bits.
pub open spec fn spec_parse_u64(s: Seq<char>) -> Option<u64> {
    let d = if s.len() > 0 && s[0] == '+' { s.drop_first() } else { s };
    if d.len() > 0 && all_digits(d) && digits_value(d) <= u64::MAX {
        Some(digits_value(d) as u64)
    } else {
        None
    }
}

proof fn lemma_digit_char(d: int)
    requires
        0 <= d < 10,
    ensures
        is_digit(digit_char(d)),
        digit_value(digit_char(d)) == d,
{
}

proof fn lemma_dec_digits(n: nat)
    ensures
        dec(n).len() > 0,
        all_digits(dec(n)),
        digits_value(dec(n)) == n,
    decreases n,
{
    if n < 10 {
        lemma_digit_char(n as int);
        assert(dec(n) == seq![digit_char(n as int)]);
        assert(dec(n).drop_last() =~= Seq::<char>::empty());
        assert(digits_value(Seq::<char>::empty()) == 0);
        assert(digits_value(dec(n)) == digits_value(dec(n).drop_last()) * 10 + digit_value(dec(n).last()));
    } else {
        lemma_dec_digits(n / 10);
        lemma_digit_char((n % 10) as int);
        let s = dec(n / 10);
        let t = s.push(digit_char((n % 10) as int));
        assert(dec(n) == t);
        assert(t.drop_last() =~= s);
        assert(t.last() == digit_char((n % 10) as int));
        assert(digits_value(t) == digits_value(s) * 10 + digit_value(t.last()));
        assert((n / 10) * 10 + n % 10 == n) by (nonlinear_arith);
        assert(digits_value(s) == n / 10);
        assert(digit_value(t.last()) == n % 10);
        assert(digits_value(t) == n);
        assert forall|i: int| 0 <= i < t.len() implies #[trigger] is_digit(t[i]) by {
            if i < s.len() {
                assert(t[i] == s[i]);
            }
        }
    }
}

/// Reading back the decimal notation of a number gives the number.
pub proof fn lemma_parse_dec(n: u64)
    ensures
        spec_parse_u64(dec(n as nat)) == Some(n),
{
    lemma_dec_digits(n as nat);
    assert(is_digit(dec(n as nat)[0]));
}

/// Reads a `u64` from decimal text exactly as `str::parse::<u64>` does.
pub fn parse_u64(s: &str) -> (r: Option<u64>)
    ensures
        r == spec_parse_u64(s@),
{
    let all = chars_of(s);
    let start: usize = if all.len() > 0 && all[0] == '+' { 1 } else { 0 };
    let ghost d = if s@.len() > 0 && s@[0] == '+' { s@.drop_first() } else { s@ };
    assert(d =~= all@.skip(start as int));
    let n = all.len();
    if start >= n {
        return None;
    }
    let mut acc: u64 = 0;
    let mut overflow = false;
    let mut i = start;
    while i < n
        invariant
            start <= i <= n,
            n == all@.len(),
            d == all@.skip(start as int),
            d == (if s@.len() > 0 && s@[0] == '+' { s@.drop_first() } else { s@ }),
            all_digits(all@.subrange(start as int, i as int)),
            !overflow ==> acc == digits_value(all@.subrange(start as int, i as int)),
            overflow ==> digits_value(all@.subrange(start as int, i as int)) > u64::MAX,
        decreases n - i,
    {
        let c = all[i];
        let ghost pre = all@.subrange(start as int, i as int);
        let ghost next = all@.subrange(start as int, i + 1);
        assert(next.drop_last() =~= pre);
        assert(next.last() == c);
        let code = c as u32;
        if code < 48 || code > 57 {
            assert(d[i - start] == c);
            assert(!is_digit(d[i - start]));
            return None;
        }
        let dv = (code - 48) as u64;
        assert(forall|j: int| 0 <= j < next.len() ==> #[trigger] next[j] == (if j < pre.len() { pre[j] } else { c }));
        if !overflow {
            if acc > (u64::MAX - dv) / 10 {
                overflow = true;
                assert(acc * 10 + dv > u64::MAX) by (nonlinear_arith)
                    requires acc > (u64::MAX - dv) / 10, dv <= 9;
            } else {
                assert(acc * 10 + dv <= u64::MAX) by (nonlinear_arith)
                    requires acc <= (u64::MAX - dv) / 10, dv <= 9;
                acc = acc * 10 + dv;
            }
        } else {
            assert(digits_value(next) >= digits_value(pre)) by (nonlinear_arith)
                requires digits_value(next) == digits_value(pre) * 10 + digit_value(c);
        }
        i = i + 1;
    }
    assert(all@.subrange(start as int, n as int) =~= d);
    if overflow {
        None
    } else {
        Some(acc)
    }
}

/// A lowercase hexadecimal digit (for `d < 16`).
pub open spec fn hex_digit_lower(d: int) -> char {
    if d < 10 {
        digit_char(d)
    } else if d == 10 {
        'a'
    } else if d == 11 {
        'b'
    } else if d == 12 {
        'c'
    } else if d == 13 {
        'd'
    } else if d == 14 {
        'e'
    } else {
        'f'
    }
}

/// The lowercase hexadecimal digit for `d`.
pub fn hex_lower(d: u32) -> (c: char)
    requires
        d < 16,
    ensures
        c == hex_digit_lower(d as int),
{
    if d == 0 { '0' }
    else if d == 1 { '1' }
    else if d == 2 { '2' }
    else if d == 3 { '3' }
    else if d == 4 { '4' }
    else if d == 5 { '5' }
    else if d == 6 { '6' }
    else if d == 7 { '7' }
    else if d == 8 { '8' }
    else if d == 9 { '9' }
    else if d == 10 { 'a' }
    else if d == 11 { 'b' }
    else if d == 12 { 'c' }
    else if d == 13 { 'd' }
    else if d == 14 { 'e' }
    else { 'f' }
}

/// The two lowercase hexadecimal digits of a byte.
pub open spec fn hex_byte(b: u8) -> Seq<char> {
    seq![hex_digit_lower((b / 16) as int), hex_digit_lower((b % 16) as int)]
}

/// Lowercase hexadecimal notation of bytes, two digits per byte, as `hex::encode` writes it.
pub open spec fn hex_encode(bytes: Seq<u8>) -> Seq<char>
    decreases bytes.len(),
{
    if bytes.len() == 0 {
        Seq::empty()
    } else {
        hex_encode(bytes.drop_last()) + hex_byte(bytes.last())
    }
}

/// The value of a hexadecimal digit of either case.
pub open spec fn hex_value(c: char) -> Option<u8> {
    let n = c as u32;
    if 48 <= n <= 57 {
        Some((n - 48) as u8)
    } else if 97 <= n <= 102 {
        Some((n - 87) as u8)
    } else if 65 <= n <= 70 {
        Some((n - 55) as u8)
    } else {
        None
    }
}

/// How `hex::decode` reads text: an even number of hexadecimal digits of either case,
/// two per byte, high digit first.
pub open spec fn hex_decode(s: Seq<char>) -> Option<Seq<u8>> {
    if s.len() % 2 == 0 && forall|i: int| 0 <= i < s.len() ==> #[trigger] hex_value(s[i]) is Some {
        Some(Seq::new((s.len() / 2) as nat, |i: int| (hex_value(s[2 * i])->0 * 16 + hex_value(s[2 * i + 1])->0) as u8))
    } else {
        None
    }
}

/// Writes bytes in lowercase hexadecimal, as `hex::encode` does.
pub fn hex_encode_bytes(bytes: &[u8]) -> (s: String)
    ensures
        s@ == hex_encode(bytes@),
        s@.len() == 2 * bytes@.len(),
{
    let mut s = String::new();
    let n = bytes.len();
    for i in 0..n
        invariant
            n == bytes@.len(),
            s@ == hex_encode(bytes@.take(i as int)),
            s@.len() == 2 * i,
    {
        let b = bytes[i];
        s.push(hex_lower((b / 16) as u32));
        s.push(hex_lower((b % 16) as u32));
        assert(bytes@.take(i + 1).drop_last() =~= bytes@.take(i as int));
        assert(s@ =~= hex_encode(bytes@.take(i + 1)));
    }
    assert(bytes@.take(n as int) =~= bytes@);
    s
}

fn hex_value_of(c: char) -> (r: Option<u8>)
    ensures
        r == hex_value(c),
{
    let n = c as u32;
    if 48 <= n && n <= 57 {
        Some((n - 48) as u8)
    } else if 97 <= n && n <= 102 {
        Some((n - 87) as u8)
    } else if 65 <= n && n <= 70 {
        Some((n - 55) as u8)
    } else {
        None
    }
}

/// Reads hexadecimal text as `hex::decode` does (see [`hex_decode`]).
pub fn hex_decode_str(s: &str) -> (r: Option<Vec<u8>>)
    ensures
        match r {
            Some(v) => hex_decode(s@) == Some(v@),
            None => hex_decode(s@) is None,
        },
{
    let chars = chars_of(s);
    let n = chars.len();
    if n % 2 != 0 {
        return None;
    }
    let mut out: Vec<u8> = Vec::new();
    let mut i: usize = 0;
    while i < n / 2
        invariant
            n == chars@.len(),
            chars@ == s@,
            n % 2 == 0,
            i <= n / 2,
            out@.len() == i,
            forall|j: int| 0 <= j < 2 * i ==> #[trigger] hex_value(chars@[j]) is Some,
            forall|j: int| 0 <= j < i ==> #[trigger] out@[j] == (hex_value(chars@[2 * j])->0 * 16
                + hex_value(chars@[2 * j + 1])->0) as u8,
        decreases n / 2 - i,
    {
        let hi = hex_value_of(chars[2 * i]);
        let lo = hex_value_of(chars[2 * i + 1]);
        match (hi, lo) {
            (Some(h), Some(l)) => {
                out.push(h * 16 + l);
            },
            _ => {
                return None;
            },
        }
        i = i + 1;
    }
    assert(Seq::new((n / 2) as nat, |j: int| (hex_value(chars@[2 * j])->0 * 16 + hex_value(chars@[2 * j + 1])->0) as u8) =~= out@);
    Some(out)
}

/// Reading back the hexadecimal notation of bytes gives the bytes.
pub proof fn lemma_hex_roundtrip(bytes: Seq<u8>)
    ensures
        hex_decode(hex_encode(bytes)) == Some(bytes),
{
    lemma_hex_encode_shape(bytes);
    let e = hex_encode(bytes);
    assert forall|i: int| 0 <= i < e.len() implies #[trigger] hex_value(e[i]) is Some by {
        let k = i / 2;
        assert(i == 2 * k || i == 2 * k + 1);
        assert(0 <= k < bytes.len());
        assert(e[2 * k] == hex_digit_lower((bytes[k] / 16) as int));
        assert(e[2 * k + 1] == hex_digit_lower((bytes[k] % 16) as int));
        lemma_hex_digit_value((bytes[k] / 16) as int);
        lemma_hex_digit_value((bytes[k] % 16) as int);
    }
    let d = hex_decode(e)->0;
    assert forall|k: int| 0 <= k < bytes.len() implies #[trigger] d[k] == bytes[k] by {
        assert(e[2 * k] == hex_digit_lower((bytes[k] / 16) as int));
        assert(e[2 * k + 1] == hex_digit_lower((bytes[k] % 16) as int));
        lemma_hex_digit_value((bytes[k] / 16) as int);
        lemma_hex_digit_value((bytes[k] % 16) as int);
    }
    assert(d =~= bytes);
}

proof fn lemma_hex_digit_value(d: int)
    requires
        0 <= d < 16,
    ensures
        hex_value(hex_digit_lower(d)) == Some(d as u8),
{
}

proof fn lemma_hex_encode_shape(bytes: Seq<u8>)
    ensures
        hex_encode(bytes).len() == 2 * bytes.len(),
        forall|i: int| 0 <= i < bytes.len() ==> #[trigger] hex_encode(bytes)[2 * i] == hex_digit_lower(
            (bytes[i] / 16) as int,
        ) && hex_encode(bytes)[2 * i + 1] == hex_digit_lower((bytes[i] % 16) as int),
    decreases bytes.len(),
{
    if bytes.len() > 0 {
        let front = bytes.drop_last();
        lemma_hex_encode_shape(front);
        assert forall|i: int| 0 <= i < bytes.len() implies #[trigger] hex_encode(bytes)[2 * i] == hex_digit_lower(
            (bytes[i] / 16) as int,
        ) && hex_encode(bytes)[2 * i + 1] == hex_digit_lower((bytes[i] % 16) as int) by {
            if i < front.len() {
                assert(front[i] == bytes[i]);
                assert(hex_encode(front)[2 * i] == hex_digit_lower((front[i] / 16) as int));
            }
        }
    }
}

/// `s` with every occurrence of `from` replaced by `to`, scanning left to right without
/// overlaps, as `str::replace` does for a non-empty pattern.
pub open spec fn replace_all(s: Seq<char>, from: Seq<char>, to: Seq<char>) -> Seq<char>
    decreases s.len(),
{
    if from.len() == 0 || s.len() < from.len() {
        s
    } else if s.take(from.len() as int) == from {
        to + replace_all(s.skip(from.len() as int), from, to)
    } else {
        seq![s[0]] + replace_all(s.skip(1), from, to)
    }
}

/// Whether `from` occurs in `s` at position `i`.
fn occurs_at(s: &Vec<char>, from: &Vec<char>, i: usize) -> (b: bool)
    requires
        i + from@.len() <= s@.len(),
    ensures
        b == (s@.skip(i as int).take(from@.len() as int) == from@),
{
    let m = from.len();
    let len = s.len();
    for j in 0..m
        invariant
            m == from@.len(),
            len == s@.len(),
            i + m <= len,
            forall|q: int| 0 <= q < j ==> s@[i + q] == from@[q],
    {
        if s[i + j] != from[j] {
            assert(s@.skip(i as int).take(m as int)[j as int] != from@[j as int]);
            return false;
        }
    }
    assert(s@.skip(i as int).take(m as int) =~= from@);
    true
}

/// `s` with every occurrence of the non-empty `from` replaced by `to` (see [`replace_all`]).
pub fn replace_str(s: &str, from: &str, to: &str) -> (r: String)
    requires
        from@.len() > 0,
    ensures
        r@ == replace_all(s@, from@, to@),
{
    let sc = chars_of(s);
    let fc = chars_of(from);
    let mut out = String::new();
    let n = sc.len();
    let m = fc.len();
    let mut i: usize = 0;
    assert(sc@.skip(0) =~= sc@);
    while i < n
        invariant
            n == sc@.len(),
            m == fc@.len(),
            m > 0,
            sc@ == s@,
            fc@ == from@,
            i <= n,
            replace_all(s@, from@, to@) == out@ + replace_all(sc@.skip(i as int), from@, to@),
        decreases n - i,
    {
        let ghost rest = sc@.skip(i as int);
        if m <= n - i && occurs_at(&sc, &fc, i) {
            out.append(to);
            assert(rest.skip(m as int) =~= sc@.skip((i + m) as int));
            i = i + m;
        } else {
            out.push(sc[i]);
            assert(rest.skip(1) =~= sc@.skip(i + 1));
            assert(rest[0] == sc@[i as int]);
            i = i + 1;
        }
    }
    assert(sc@.skip(n as int).len() == 0);
    out
}

/// `s` without every leading repetition of the non-empty `prefix`, as
/// `str::trim_start_matches` leaves it.
pub open spec fn trim_start(s: Seq<char>, prefix: Seq<char>) -> Seq<char>
    decreases s.len(),
{
    if prefix.len() > 0 && has_prefix(s, prefix) {
        trim_start(s.skip(prefix.len() as int), prefix)
    } else {
        s
    }
}

/// `s` without every leading repetition of the non-empty `prefix` (see [`trim_start`]).
pub fn trim_start_matches(s: &str, prefix: &str) -> (r: String)
    requires
        prefix@.len() > 0,
    ensures
        r@ == trim_start(s@, prefix@),
{
    let sc = chars_of(s);
    let pc = chars_of(prefix);
    let n = sc.len();
    let m = pc.len();
    let mut i: usize = 0;
    assert(sc@.skip(0) =~= sc@);
    while m <= n - i && occurs_at(&sc, &pc, i)
        invariant
            n == sc@.len(),
            m == pc@.len(),
            m > 0,
            sc@ == s@,
            pc@ == prefix@,
            i <= n,
            trim_start(s@, prefix@) == trim_start(sc@.skip(i as int), prefix@),
        decreases n - i,
    {
        assert(sc@.skip(i as int).skip(m as int) =~= sc@.skip((i + m) as int));
        i = i + m;
    }
    let ghost rest = sc@.skip(i as int);
    assert(!has_prefix(rest, prefix@)) by {
        if m <= n - i {
            assert(rest.take(m as int) =~= sc@.skip(i as int).take(m as int));
        }
    }
    let tail = sc.as_slice().split_at(i).1;
    assert(tail@ =~= rest);
    string_from_chars(tail)
}

/// `s` without every trailing occurrence of character `c`, as `str::trim_end_matches`
/// leaves it for a single character.
pub open spec fn trim_end_char(s: Seq<char>, c: char) -> Seq<char>
    decreases s.len(),
{
    if s.len() > 0 && s.last() == c {
        trim_end_char(s.drop_last(), c)
    } else {
        s
    }
}

/// `s` without every trailing occurrence of `c` (see [`trim_end_char`]).
pub fn trim_end_matches_char(s: &str, c: char) -> (r: String)
    ensures
        r@ == trim_end_char(s@, c),
{
    let sc = chars_of(s);
    let mut n = sc.len();
    assert(sc@.take(n as int) =~= sc@);
    while n > 0 && sc[n - 1] == c
        invariant
            n <= sc@.len(),
            sc@ == s@,
            trim_end_char(s@, c) == trim_end_char(sc@.take(n as int), c),
        decreases n,
    {
        assert(sc@.take(n as int).drop_last() =~= sc@.take(n - 1));
        n = n - 1;
    }
    let head = sc.as_slice().split_at(n).0;
    assert(head@ =~= sc@.take(n as int));
    string_from_chars(head)
}

/// How many bytes of `s` a prefix of at most `n` bytes takes.
pub open spec fn prefix_len(s: &str, n: int) -> int {
    if s.spec_bytes().len() < n {
        s.spec_bytes().len() as int
    } else {
        n
    }
}

/// The first `n` bytes of `s` (all of it when shorter), as `&s[..s.len().min(n)]`
/// gives them; that position must fall between characters.
pub fn byte_prefix(s: &str, n: usize) -> (r: String)
    requires
        s.spec_bytes().len() <= usize::MAX,
        is_char_boundary(s.spec_bytes(), prefix_len(s, n as int)),
    ensures
        encode_utf8(r@) == s.spec_bytes().take(prefix_len(s, n as int)),
{
    let len = s.len();
    let cut = if len < n {
        len
    } else {
        n
    };
    let (head, _) = s.split_at(cut);
    assert(encode_utf8(head@) =~= s.spec_bytes().take(prefix_len(s, n as int)));
    head.to_owned()
}

} // verus!
