//! Character and decimal helpers shared by the rest of the library.

use vstd::prelude::*;

verus! {

/// `c` is an ASCII digit `0`..=`9`.
pub open spec fn is_ascii_digit(c: char) -> bool {
    '0' <= c && c <= '9'
}

/// `c` is an ASCII letter or digit.
pub open spec fn is_ascii_alnum(c: char) -> bool {
    is_ascii_digit(c) || ('a' <= c && c <= 'z') || ('A' <= c && c <= 'Z')
}

/// ASCII lower-casing: upper-case ASCII letters move to lower case, every
/// other character stays as it is.
pub open spec fn ascii_lower(c: char) -> char {
    if 'A' <= c && c <= 'Z' {
        ((c as u32) + 32) as char
    } else {
        c
    }
}

/// The decimal digit character for `d < 10`.
pub open spec fn digit_char(d: nat) -> char {
    ((48 + d) as u32) as char
}

/// The decimal rendering of a natural number, without leading zeros.
pub open spec fn decimal(n: nat) -> Seq<char>
    decreases n,
{
    if n < 10 {
        seq![digit_char(n)]
    } else {
        decimal(n / 10).push(digit_char(n % 10))
    }
}

/// The decimal rendering of an integer: a `-` in front of negative values.
pub open spec fn signed_decimal(n: int) -> Seq<char> {
    if n < 0 {
        seq!['-'] + decimal((-n) as nat)
    } else {
        decimal(n as nat)
    }
}

/// The value of a string of ASCII digits, read in base ten.
pub open spec fn digits_value(s: Seq<char>) -> nat
    decreases s.len(),
{
    if s.len() == 0 {
        0
    } else {
        digits_value(s.drop_last()) * 10 + ((s.last() as u32) - 48) as nat
    }
}

/// Every character of `s` is an ASCII digit.
pub open spec fn all_digits(s: Seq<char>) -> bool {
    forall|i: int| 0 <= i < s.len() ==> is_ascii_digit(#[trigger] s[i])
}

/// What reading `s` as an unsigned 64-bit decimal gives: an optional `+`,
/// then at least one ASCII digit, with a value that fits.
pub open spec fn spec_parse_u64(s: Seq<char>) -> Option<u64> {
    let body = if s.len() > 0 && s[0] == '+' { s.drop_first() } else { s };
    if body.len() > 0 && all_digits(body) && digits_value(body) <= u64::MAX {
        Some(digits_value(body) as u64)
    } else {
        None
    }
}

/// What reading `s` as a signed 32-bit decimal gives: an optional `+` or
/// `-`, then at least one ASCII digit, with a value in range.
pub open spec fn spec_parse_i32(s: Seq<char>) -> Option<i32> {
    let negative = s.len() > 0 && s[0] == '-';
    let body = if s.len() > 0 && (s[0] == '+' || s[0] == '-') { s.drop_first() } else { s };
    let value: int = if negative { -(digits_value(body) as int) } else { digits_value(body) as int };
    if body.len() > 0 && all_digits(body) && i32::MIN <= value <= i32::MAX {
        Some(value as i32)
    } else {
        None
    }
}

/// Number of bytes of a character's UTF-8 encoding.
pub open spec fn char_width(c: char) -> nat {
    if (c as u32) < 0x80 {
        1
    } else if (c as u32) < 0x800 {
        2
    } else if (c as u32) < 0x10000 {
        3
    } else {
        4
    }
}

/// Number of bytes of the UTF-8 encoding of a character sequence.
pub open spec fn utf8_len(s: Seq<char>) -> nat
    decreases s.len(),
{
    if s.len() == 0 {
        0
    } else {
        utf8_len(s.drop_last()) + char_width(s.last())
    }
}

pub proof fn lemma_utf8_len_concat(a: Seq<char>, b: Seq<char>)
    ensures
        utf8_len(a + b) == utf8_len(a) + utf8_len(b),
    decreases b.len(),
{
    if b.len() == 0 {
        assert(a + b =~= a);
    } else {
        lemma_utf8_len_concat(a, b.drop_last());
        assert((a + b).drop_last() =~= a + b.drop_last());
    }
}

/// A string of ASCII characters takes one byte per character.
pub proof fn lemma_ascii_utf8_len(s: Seq<char>)
    requires
        forall|i: int| 0 <= i < s.len() ==> (#[trigger] s[i] as u32) < 0x80,
    ensures
        utf8_len(s) == s.len(),
    decreases s.len(),
{
    if s.len() > 0 {
        let p = s.drop_last();
        assert forall|i: int| 0 <= i < p.len() implies (#[trigger] p[i] as u32) < 0x80 by {
            assert(p[i] == s[i]);
        }
        lemma_ascii_utf8_len(p);
        assert((s[s.len() - 1] as u32) < 0x80);
    }
}

proof fn lemma_encode_scalar_len(c: char)
    ensures
        vstd::utf8::encode_scalar(c as u32).len() == char_width(c),
{
    broadcast use vstd::utf8::char_is_scalar;

}

/// The byte length that `str::len` reports is the UTF-8 length of the
/// characters.
pub proof fn lemma_encode_utf8_len(s: Seq<char>)
    ensures
        vstd::utf8::encode_utf8(s).len() == utf8_len(s),
    decreases s.len(),
{
    if s.len() > 0 {
        lemma_encode_utf8_len(s.drop_first());
        lemma_encode_scalar_len(s[0]);
        lemma_utf8_len_concat(seq![s[0]], s.drop_first());
        assert(seq![s[0]] + s.drop_first() =~= s);
        assert(seq![s[0]].drop_last() =~= Seq::<char>::empty());
        let one = seq![s[0]];
        assert(one.last() == s[0]);
        assert(utf8_len(one.drop_last()) == 0);
        assert(utf8_len(one) == char_width(s[0]));
        assert(vstd::utf8::encode_utf8(s) == vstd::utf8::encode_scalar(s[0] as u32)
            + vstd::utf8::encode_utf8(s.drop_first()));
    }
}

/// Appends one character (`String::push`).
#[verifier::external_body]
pub(crate) fn push_char(s: &mut String, c: char)
    ensures
        final(s)@ == old(s)@.push(c),
{
    s.push(c)
}

/// Whether two strings have the same characters.
pub fn str_eq(a: &str, b: &str) -> (r: bool)
    ensures
        r == (a@ == b@),
{
    let x = chars_of(a);
    let y = chars_of(b);
    if x.len() != y.len() {
        return false;
    }
    let n = x.len();
    for i in 0..n
        invariant
            n == x@.len(),
            x@.len() == y@.len(),
            x@ == a@,
            y@ == b@,
            forall|k: int| 0 <= k < i ==> x@[k] == y@[k],
    {
        if x[i] != y[i] {
            return false;
        }
    }
    proof {
        assert(x@ =~= y@);
    }
    true
}

/// A fresh `String` holding `s`.
pub fn owned(s: &str) -> (r: String)
    ensures
        r@ == s@,
{
    String::from_str(s)
}

/// The characters of `s`, in order.
pub fn chars_of(s: &str) -> (v: Vec<char>)
    ensures
        v@ == s@,
{
    broadcast use vstd::string::group_string_axioms;

    let mut v: Vec<char> = Vec::new();
    let mut it = s.chars();
    loop
        invariant
            v@ + vstd::std_specs::iter::IteratorSpec::remaining(&it) == s@,
            vstd::std_specs::iter::IteratorSpec::decrease(&it) is Some,
        ensures
            v@ == s@,
        decreases vstd::std_specs::iter::IteratorSpec::decrease(&it)->0,
    {
        let ghost before = vstd::std_specs::iter::IteratorSpec::remaining(&it);
        match it.next() {
            Some(c) => {
                proof {
                    assert(v@.push(c) + vstd::std_specs::iter::IteratorSpec::remaining(&it) =~= v@ + before);
                }
                v.push(c);
            },
            None => {
                proof {
                    assert(v@ + vstd::std_specs::iter::IteratorSpec::remaining(&it) =~= v@);
                }
                break;
            },
        }
    }
    v
}

/// A `String` holding the characters of `v`.
pub fn string_of(v: &Vec<char>) -> (s: String)
    ensures
        s@ == v@,
{
    let mut s = String::new();
    let n = v.len();
    for i in 0..n
        invariant
            n == v@.len(),
            s@ == v@.take(i as int),
    {
        push_char(&mut s, v[i]);
        proof {
            assert(v@.take(i + 1) =~= v@.take(i as int).push(v@[i as int]));
        }
    }
    proof {
        assert(v@.take(n as int) =~= v@);
    }
    s
}

pub fn is_ascii_alnum_exec(c: char) -> (b: bool)
    ensures
        b == is_ascii_alnum(c),
{
    ('0' <= c && c <= '9') || ('a' <= c && c <= 'z') || ('A' <= c && c <= 'Z')
}

pub fn ascii_lower_exec(c: char) -> (r: char)
    ensures
        r == ascii_lower(c),
{
    if 'A' <= c && c <= 'Z' {
        let b: u8 = c as u8;
        (b + 32) as char
    } else {
        c
    }
}

fn digit_char_exec(d: u64) -> (c: char)
    requires
        d < 10,
    ensures
        c == digit_char(d as nat),
{
    let b: u8 = d as u8;
    (b + 48) as char
}

/// Appends the decimal digits of `n` to `out`.
pub fn push_decimal(out: &mut String, n: u64)
    ensures
        final(out)@ == old(out)@ + decimal(n as nat),
{
    // Digits are produced least significant first, then written in reverse.
    let mut rev: Vec<char> = Vec::new();
    let mut m: u64 = n;
    while m >= 10
        invariant
            decimal(n as nat) == decimal(m as nat) + rev@.reverse(),
        decreases m,
    {
        let d = m % 10;
        let c = digit_char_exec(d);
        proof {
            assert(decimal(m as nat) == decimal((m / 10) as nat).push(digit_char((m % 10) as nat)));
            assert(rev@.push(c).reverse() =~= seq![c] + rev@.reverse());
            assert(decimal((m / 10) as nat).push(c) + rev@.reverse() =~= decimal((m / 10) as nat)
                + (seq![c] + rev@.reverse()));
        }
        rev.push(c);
        m = m / 10;
    }
    let ghost start = out@;
    push_char(out, digit_char_exec(m));
    proof {
        assert(decimal(m as nat) =~= seq![digit_char(m as nat)]);
    }
    let mut k = rev.len();
    while k > 0
        invariant
            k <= rev@.len(),
            decimal(n as nat) == decimal(m as nat) + rev@.reverse(),
            out@ == start + decimal(m as nat) + rev@.subrange(k as int, rev@.len() as int).reverse(),
        decreases k,
    {
        k = k - 1;
        let ghost before = out@;
        push_char(out, rev[k]);
        proof {
            let tail = rev@.subrange(k as int, rev@.len() as int);
            let tail1 = rev@.subrange(k + 1, rev@.len() as int);
            assert(tail =~= seq![rev@[k as int]] + tail1);
            assert(tail.reverse() =~= tail1.reverse().push(rev@[k as int]));
            assert(out@ =~= start + decimal(m as nat) + tail.reverse());
        }
    }
    proof {
        assert(rev@.subrange(0, rev@.len() as int) =~= rev@);
        assert(out@ =~= start + decimal(n as nat));
    }
}

/// The decimal rendering of `n` (`u64::to_string`).
pub fn u64_to_decimal(n: u64) -> (s: String)
    ensures
        s@ == decimal(n as nat),
{
    let mut s = String::new();
    push_decimal(&mut s, n);
    proof {
        assert(s@ =~= decimal(n as nat));
    }
    s
}

/// The decimal rendering of `n` (`i32::to_string`).
pub fn i32_to_decimal(n: i32) -> (s: String)
    ensures
        s@ == signed_decimal(n as int),
{
    let mut s = String::new();
    if n < 0 {
        push_char(&mut s, '-');
        let magnitude: u64 = (0i64 - (n as i64)) as u64;
        push_decimal(&mut s, magnitude);
        proof {
            assert(s@ =~= seq!['-'] + decimal((-n) as nat));
        }
    } else {
        push_decimal(&mut s, n as u64);
        proof {
            assert(s@ =~= decimal(n as nat));
        }
    }
    s
}

proof fn lemma_digits_value_push(s: Seq<char>, c: char)
    ensures
        digits_value(s.push(c)) == digits_value(s) * 10 + ((c as u32) - 48) as nat,
{
    assert(s.push(c).drop_last() =~= s);
}

/// Reads an ASCII decimal body (digits only) with a bound on its value;
/// `None` when a character is not a digit or the value exceeds `limit`.
fn read_digits(v: &Vec<char>, start: usize, limit: u64) -> (r: Option<u64>)
    requires
        start <= v@.len(),
        limit >= 9,
    ensures
        ({
            let body = v@.subrange(start as int, v@.len() as int);
            match r {
                Some(x) => all_digits(body) && x == digits_value(body) && x <= limit,
                None => !all_digits(body) || digits_value(body) > limit,
            }
        }),
{
    let n = v.len();
    let mut acc: u64 = 0;
    let mut i = start;
    while i < n
        invariant
            start <= i <= n,
            n == v@.len(),
            all_digits(v@.subrange(start as int, i as int)),
            acc == digits_value(v@.subrange(start as int, i as int)),
            acc <= limit,
            limit >= 9,
        decreases n - i,
    {
        let c = v[i];
        let ghost prefix = v@.subrange(start as int, i as int);
        proof {
            assert(v@.subrange(start as int, i + 1) =~= prefix.push(c));
            lemma_digits_value_push(prefix, c);
        }
        if !('0' <= c && c <= '9') {
            proof {
                let body = v@.subrange(start as int, n as int);
                assert(body[i - start] == c);
            }
            return None;
        }
        let d: u64 = ((c as u32) - 48) as u64;
        if acc > (limit - d) / 10 {
            // acc * 10 + d > limit, and digits only make the value larger.
            proof {
                let body = v@.subrange(start as int, n as int);
                assert(acc * 10 + d > limit) by (nonlinear_arith)
                    requires
                        acc > (limit - d) / 10,
                        d <= limit || d > limit,
                ;
                lemma_digits_value_prefix_bound(body, (i + 1 - start) as int);
                assert(body.subrange(0, (i + 1 - start) as int) =~= prefix.push(c));
            }
            return None;
        }
        proof {
            assert(acc * 10 + d <= limit) by (nonlinear_arith)
                requires
                    acc <= (limit - d) / 10,
                    d <= limit,
            ;
        }
        acc = acc * 10 + d;
        i = i + 1;
    }
    Some(acc)
}

/// A digit string's value is at least the value of any of its prefixes.
proof fn lemma_digits_value_prefix_bound(s: Seq<char>, k: int)
    requires
        0 <= k <= s.len(),
    ensures
        all_digits(s) ==> digits_value(s.subrange(0, k)) <= digits_value(s),
    decreases s.len() - k,
{
    if k < s.len() && all_digits(s) {
        lemma_digits_value_prefix_bound(s, k + 1);
        let p = s.subrange(0, k);
        assert(s.subrange(0, k + 1) =~= p.push(s[k]));
        lemma_digits_value_push(p, s[k]);
    } else if k == s.len() {
        assert(s.subrange(0, k) =~= s);
    }
}

/// The largest value of `n` decimal digits: `n` nines.
spec fn all_nines(n: nat) -> int
    decreases n,
{
    if n == 0 {
        0
    } else {
        all_nines((n - 1) as nat) * 10 + 9
    }
}

proof fn lemma_digits_value_max(s: Seq<char>)
    requires
        all_digits(s),
    ensures
        digits_value(s) <= all_nines(s.len()),
    decreases s.len(),
{
    if s.len() > 0 {
        let p = s.drop_last();
        assert(all_digits(p));
        lemma_digits_value_max(p);
        assert(is_ascii_digit(s[s.len() - 1]));
    }
}

/// A string of at most four ASCII digits is worth at most 9999.
pub proof fn lemma_four_digits_bound(s: Seq<char>)
    requires
        all_digits(s),
        s.len() <= 4,
    ensures
        digits_value(s) <= 9999,
{
    lemma_digits_value_max(s);
    reveal_with_fuel(all_nines, 5);
}

/// Read as an `i32`, a string of one to four ASCII digits (no sign) gives
/// a value from 0 to 9999.
pub proof fn lemma_short_unsigned_i32(s: Seq<char>)
    requires
        1 <= s.len() <= 4,
        s[0] != '+',
        s[0] != '-',
    ensures
        spec_parse_i32(s) matches Some(v) ==> 0 <= v <= 9999,
{
    if spec_parse_i32(s) is Some {
        lemma_four_digits_bound(s);
    }
}

/// `u64::from_str`: an optional `+`, then ASCII digits, with a value that
/// fits in 64 bits.
pub fn parse_u64(s: &str) -> (r: Option<u64>)
    ensures
        r == spec_parse_u64(s@),
{
    let v = chars_of(s);
    let start: usize = if v.len() > 0 && v[0] == '+' { 1 } else { 0 };
    proof {
        let body = if s@.len() > 0 && s@[0] == '+' { s@.drop_first() } else { s@ };
        assert(v@.subrange(start as int, v@.len() as int) =~= body);
    }
    if start >= v.len() {
        return None;
    }
    read_digits(&v, start, u64::MAX)
}

/// `i32::from_str`: an optional sign, then ASCII digits, with a value in
/// range.
pub fn parse_i32(s: &str) -> (r: Option<i32>)
    ensures
        r == spec_parse_i32(s@),
{
    let v = chars_of(s);
    let negative = v.len() > 0 && v[0] == '-';
    let start: usize = if v.len() > 0 && (v[0] == '+' || v[0] == '-') { 1 } else { 0 };
    proof {
        let body = if s@.len() > 0 && (s@[0] == '+' || s@[0] == '-') { s@.drop_first() } else { s@ };
        assert(v@.subrange(start as int, v@.len() as int) =~= body);
    }
    if start >= v.len() {
        return None;
    }
    let limit: u64 = if negative { 2147483648 } else { 2147483647 };
    match read_digits(&v, start, limit) {
        Some(x) => {
            if negative {
                Some((0i64 - (x as i64)) as i32)
            } else {
                Some(x as i32)
            }
        },
        None => None,
    }
}

/// `prefix` is a prefix of `s`.
pub open spec fn is_prefix_of(prefix: Seq<char>, s: Seq<char>) -> bool {
    prefix.len() <= s.len() && s.take(prefix.len() as int) == prefix
}

/// Whether `s` starts with `prefix` (`str::starts_with`).
pub fn starts_with(s: &str, prefix: &str) -> (r: bool)
    ensures
        r == is_prefix_of(prefix@, s@),
{
    let sv = chars_of(s);
    let pv = chars_of(prefix);
    if pv.len() > sv.len() {
        return false;
    }
    let n = pv.len();
    for i in 0..n
        invariant
            n == pv@.len(),
            n <= sv@.len(),
            sv@ == s@,
            pv@ == prefix@,
            sv@.take(i as int) == pv@.take(i as int),
    {
        if sv[i] != pv[i] {
            proof {
                assert(sv@.take(n as int)[i as int] == sv@[i as int]);
            }
            return false;
        }
        proof {
            assert(sv@.take(i + 1) =~= sv@.take(i as int).push(sv@[i as int]));
            assert(pv@.take(i + 1) =~= pv@.take(i as int).push(pv@[i as int]));
        }
    }
    proof {
        assert(pv@.take(n as int) =~= pv@);
    }
    true
}

/// A Unicode decimal digit (general category Nd, Unicode 16.0): the
/// characters `\d` stands for in a Unicode regular expression.
pub open spec fn is_decimal_digit(c: char) -> bool {
    ('\u{30}' <= c && c <= '\u{39}')
        || ('\u{660}' <= c && c <= '\u{669}')
        || ('\u{6f0}' <= c && c <= '\u{6f9}')
        || ('\u{7c0}' <= c && c <= '\u{7c9}')
        || ('\u{966}' <= c && c <= '\u{96f}')
        || ('\u{9e6}' <= c && c <= '\u{9ef}')
        || ('\u{a66}' <= c && c <= '\u{a6f}')
        || ('\u{ae6}' <= c && c <= '\u{aef}')
        || ('\u{b66}' <= c && c <= '\u{b6f}')
        || ('\u{be6}' <= c && c <= '\u{bef}')
        || ('\u{c66}' <= c && c <= '\u{c6f}')
        || ('\u{ce6}' <= c && c <= '\u{cef}')
        || ('\u{d66}' <= c && c <= '\u{d6f}')
        || ('\u{de6}' <= c && c <= '\u{def}')
        || ('\u{e50}' <= c && c <= '\u{e59}')
        || ('\u{ed0}' <= c && c <= '\u{ed9}')
        || ('\u{f20}' <= c && c <= '\u{f29}')
        || ('\u{1040}' <= c && c <= '\u{1049}')
        || ('\u{1090}' <= c && c <= '\u{1099}')
        || ('\u{17e0}' <= c && c <= '\u{17e9}')
        || ('\u{1810}' <= c && c <= '\u{1819}')
        || ('\u{1946}' <= c && c <= '\u{194f}')
        || ('\u{19d0}' <= c && c <= '\u{19d9}')
        || ('\u{1a80}' <= c && c <= '\u{1a89}')
        || ('\u{1a90}' <= c && c <= '\u{1a99}')
        || ('\u{1b50}' <= c && c <= '\u{1b59}')
        || ('\u{1bb0}' <= c && c <= '\u{1bb9}')
        || ('\u{1c40}' <= c && c <= '\u{1c49}')
        || ('\u{1c50}' <= c && c <= '\u{1c59}')
        || ('\u{a620}' <= c && c <= '\u{a629}')
        || ('\u{a8d0}' <= c && c <= '\u{a8d9}')
        || ('\u{a900}' <= c && c <= '\u{a909}')
        || ('\u{a9d0}' <= c && c <= '\u{a9d9}')
        || ('\u{a9f0}' <= c && c <= '\u{a9f9}')
        || ('\u{aa50}' <= c && c <= '\u{aa59}')
        || ('\u{abf0}' <= c && c <= '\u{abf9}')
        || ('\u{ff10}' <= c && c <= '\u{ff19}')
        || ('\u{104a0}' <= c && c <= '\u{104a9}')
        || ('\u{10d30}' <= c && c <= '\u{10d39}')
        || ('\u{10d40}' <= c && c <= '\u{10d49}')
        || ('\u{11066}' <= c && c <= '\u{1106f}')
        || ('\u{110f0}' <= c && c <= '\u{110f9}')
        || ('\u{11136}' <= c && c <= '\u{1113f}')
        || ('\u{111d0}' <= c && c <= '\u{111d9}')
        || ('\u{112f0}' <= c && c <= '\u{112f9}')
        || ('\u{11450}' <= c && c <= '\u{11459}')
        || ('\u{114d0}' <= c && c <= '\u{114d9}')
        || ('\u{11650}' <= c && c <= '\u{11659}')
        || ('\u{116c0}' <= c && c <= '\u{116c9}')
        || ('\u{116d0}' <= c && c <= '\u{116e3}')
        || ('\u{11730}' <= c && c <= '\u{11739}')
        || ('\u{118e0}' <= c && c <= '\u{118e9}')
        || ('\u{11950}' <= c && c <= '\u{11959}')
        || ('\u{11bf0}' <= c && c <= '\u{11bf9}')
        || ('\u{11c50}' <= c && c <= '\u{11c59}')
        || ('\u{11d50}' <= c && c <= '\u{11d59}')
        || ('\u{11da0}' <= c && c <= '\u{11da9}')
        || ('\u{11f50}' <= c && c <= '\u{11f59}')
        || ('\u{16130}' <= c && c <= '\u{16139}')
        || ('\u{16a60}' <= c && c <= '\u{16a69}')
        || ('\u{16ac0}' <= c && c <= '\u{16ac9}')
        || ('\u{16b50}' <= c && c <= '\u{16b59}')
        || ('\u{16d70}' <= c && c <= '\u{16d79}')
        || ('\u{1ccf0}' <= c && c <= '\u{1ccf9}')
        || ('\u{1d7ce}' <= c && c <= '\u{1d7ff}')
        || ('\u{1e140}' <= c && c <= '\u{1e149}')
        || ('\u{1e2f0}' <= c && c <= '\u{1e2f9}')
        || ('\u{1e4f0}' <= c && c <= '\u{1e4f9}')
        || ('\u{1e5f1}' <= c && c <= '\u{1e5fa}')
        || ('\u{1e950}' <= c && c <= '\u{1e959}')
        || ('\u{1fbf0}' <= c && c <= '\u{1fbf9}')
}

pub fn is_decimal_digit_exec(c: char) -> (r: bool)
    ensures
        r == is_decimal_digit(c),
{
    ('\u{30}' <= c && c <= '\u{39}')
        || ('\u{660}' <= c && c <= '\u{669}')
        || ('\u{6f0}' <= c && c <= '\u{6f9}')
        || ('\u{7c0}' <= c && c <= '\u{7c9}')
        || ('\u{966}' <= c && c <= '\u{96f}')
        || ('\u{9e6}' <= c && c <= '\u{9ef}')
        || ('\u{a66}' <= c && c <= '\u{a6f}')
        || ('\u{ae6}' <= c && c <= '\u{aef}')
        || ('\u{b66}' <= c && c <= '\u{b6f}')
        || ('\u{be6}' <= c && c <= '\u{bef}')
        || ('\u{c66}' <= c && c <= '\u{c6f}')
        || ('\u{ce6}' <= c && c <= '\u{cef}')
        || ('\u{d66}' <= c && c <= '\u{d6f}')
        || ('\u{de6}' <= c && c <= '\u{def}')
        || ('\u{e50}' <= c && c <= '\u{e59}')
        || ('\u{ed0}' <= c && c <= '\u{ed9}')
        || ('\u{f20}' <= c && c <= '\u{f29}')
        || ('\u{1040}' <= c && c <= '\u{1049}')
        || ('\u{1090}' <= c && c <= '\u{1099}')
        || ('\u{17e0}' <= c && c <= '\u{17e9}')
        || ('\u{1810}' <= c && c <= '\u{1819}')
        || ('\u{1946}' <= c && c <= '\u{194f}')
        || ('\u{19d0}' <= c && c <= '\u{19d9}')
        || ('\u{1a80}' <= c && c <= '\u{1a89}')
        || ('\u{1a90}' <= c && c <= '\u{1a99}')
        || ('\u{1b50}' <= c && c <= '\u{1b59}')
        || ('\u{1bb0}' <= c && c <= '\u{1bb9}')
        || ('\u{1c40}' <= c && c <= '\u{1c49}')
        || ('\u{1c50}' <= c && c <= '\u{1c59}')
        || ('\u{a620}' <= c && c <= '\u{a629}')
        || ('\u{a8d0}' <= c && c <= '\u{a8d9}')
        || ('\u{a900}' <= c && c <= '\u{a909}')
        || ('\u{a9d0}' <= c && c <= '\u{a9d9}')
        || ('\u{a9f0}' <= c && c <= '\u{a9f9}')
        || ('\u{aa50}' <= c && c <= '\u{aa59}')
        || ('\u{abf0}' <= c && c <= '\u{abf9}')
        || ('\u{ff10}' <= c && c <= '\u{ff19}')
        || ('\u{104a0}' <= c && c <= '\u{104a9}')
        || ('\u{10d30}' <= c && c <= '\u{10d39}')
        || ('\u{10d40}' <= c && c <= '\u{10d49}')
        || ('\u{11066}' <= c && c <= '\u{1106f}')
        || ('\u{110f0}' <= c && c <= '\u{110f9}')
        || ('\u{11136}' <= c && c <= '\u{1113f}')
        || ('\u{111d0}' <= c && c <= '\u{111d9}')
        || ('\u{112f0}' <= c && c <= '\u{112f9}')
        || ('\u{11450}' <= c && c <= '\u{11459}')
        || ('\u{114d0}' <= c && c <= '\u{114d9}')
        || ('\u{11650}' <= c && c <= '\u{11659}')
        || ('\u{116c0}' <= c && c <= '\u{116c9}')
        || ('\u{116d0}' <= c && c <= '\u{116e3}')
        || ('\u{11730}' <= c && c <= '\u{11739}')
        || ('\u{118e0}' <= c && c <= '\u{118e9}')
        || ('\u{11950}' <= c && c <= '\u{11959}')
        || ('\u{11bf0}' <= c && c <= '\u{11bf9}')
        || ('\u{11c50}' <= c && c <= '\u{11c59}')
        || ('\u{11d50}' <= c && c <= '\u{11d59}')
        || ('\u{11da0}' <= c && c <= '\u{11da9}')
        || ('\u{11f50}' <= c && c <= '\u{11f59}')
        || ('\u{16130}' <= c && c <= '\u{16139}')
        || ('\u{16a60}' <= c && c <= '\u{16a69}')
        || ('\u{16ac0}' <= c && c <= '\u{16ac9}')
        || ('\u{16b50}' <= c && c <= '\u{16b59}')
        || ('\u{16d70}' <= c && c <= '\u{16d79}')
        || ('\u{1ccf0}' <= c && c <= '\u{1ccf9}')
        || ('\u{1d7ce}' <= c && c <= '\u{1d7ff}')
        || ('\u{1e140}' <= c && c <= '\u{1e149}')
        || ('\u{1e2f0}' <= c && c <= '\u{1e2f9}')
        || ('\u{1e4f0}' <= c && c <= '\u{1e4f9}')
        || ('\u{1e5f1}' <= c && c <= '\u{1e5fa}')
        || ('\u{1e950}' <= c && c <= '\u{1e959}')
        || ('\u{1fbf0}' <= c && c <= '\u{1fbf9}')
}

/// A Unicode white-space character (property White_Space, Unicode 16.0):
/// the characters `\s` stands for in a Unicode regular expression.
pub open spec fn is_white_space(c: char) -> bool {
    ('\u{9}' <= c && c <= '\u{d}')
        || c == '\u{20}'
        || c == '\u{85}'
        || c == '\u{a0}'
        || c == '\u{1680}'
        || ('\u{2000}' <= c && c <= '\u{200a}')
        || ('\u{2028}' <= c && c <= '\u{2029}')
        || c == '\u{202f}'
        || c == '\u{205f}'
        || c == '\u{3000}'
}

pub fn is_white_space_exec(c: char) -> (r: bool)
    ensures
        r == is_white_space(c),
{
    ('\u{9}' <= c && c <= '\u{d}')
        || c == '\u{20}'
        || c == '\u{85}'
        || c == '\u{a0}'
        || c == '\u{1680}'
        || ('\u{2000}' <= c && c <= '\u{200a}')
        || ('\u{2028}' <= c && c <= '\u{2029}')
        || c == '\u{202f}'
        || c == '\u{205f}'
        || c == '\u{3000}'
}

/// The text of an optional owned string.
pub open spec fn opt_text(o: Option<String>) -> Option<Seq<char>> {
    match o {
        Some(s) => Some(s@),
        None => None,
    }
}

} // verus!
