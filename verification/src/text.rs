//! Small verified text utilities: turning strings into character vectors and
//! back, and the decimal form of signed 64-bit integers (both directions).
use vstd::prelude::*;

verus! {

/// Copies the characters of `s` into a vector.
#[verifier::external_body]
pub(crate) fn chars_of(s: &str) -> (v: Vec<char>)
    ensures
        v@ == s@,
{
    s.chars().collect()
}

/// `String::push`: appends one character.
#[verifier::external_body]
pub(crate) fn push_char(s: &mut String, c: char)
    ensures
        final(s)@ == old(s)@.push(c),
{
    s.push(c)
}

/// Builds a string holding exactly the given characters.
pub fn string_from_chars(v: &Vec<char>) -> (s: String)
    ensures
        s@ == v@,
{
    let mut s = String::new();
    let mut i: usize = 0;
    while i < v.len()
        invariant
            0 <= i <= v@.len(),
            s@ == v@.subrange(0, i as int),
        decreases v@.len() - i,
    {
        push_char(&mut s, v[i]);
        i = i + 1;
        assert(s@ =~= v@.subrange(0, i as int));
    }
    assert(s@ =~= v@);
    s
}

/// Copies a string slice into an owned `String`.
pub fn owned(s: &str) -> (r: String)
    ensures
        r@ == s@,
{
    let mut r = String::new();
    r.append(s);
    assert(r@ =~= s@);
    r
}

/// `a` followed by `b`, as a new string.
pub fn concat2(a: &str, b: &str) -> (r: String)
    ensures
        r@ == a@ + b@,
{
    let mut r = owned(a);
    r.append(b);
    r
}

/// `a`, `b` and `c` one after the other, as a new string.
pub fn concat3(a: &str, b: &str, c: &str) -> (r: String)
    ensures
        r@ == a@ + b@ + c@,
{
    let mut r = owned(a);
    r.append(b);
    r.append(c);
    r
}

/// The character of an ASCII decimal digit `d` (0 <= d < 10).
pub open spec fn digit_char(d: int) -> char {
    ((d + 48) as u8) as char
}

pub open spec fn is_ascii_digit(c: char) -> bool {
    '0' <= c && c <= '9'
}

pub open spec fn digit_value(c: char) -> int {
    (c as int) - 48
}

pub proof fn lemma_digit_char(d: int)
    requires
        0 <= d < 10,
    ensures
        digit_char(d) as int == d + 48,
        is_ascii_digit(digit_char(d)),
        digit_value(digit_char(d)) == d,
{
    let b = (d + 48) as u8;
    assert(b as int == d + 48);
    assert((b as char) as int == b as int);
}

/// The decimal form of a natural number, most significant digit first, no
/// leading zeros (zero is written as a single `0`).
pub open spec fn decimal(n: nat) -> Seq<char>
    decreases n,
{
    if n < 10 {
        seq![digit_char(n as int)]
    } else {
        decimal(n / 10).push(digit_char((n % 10) as int))
    }
}

/// The text `i64::to_string` produces: a `-` before the magnitude of a
/// negative number.
pub open spec fn signed_decimal(n: int) -> Seq<char> {
    if n < 0 {
        seq!['-'] + decimal((-n) as nat)
    } else {
        decimal(n as nat)
    }
}

pub open spec fn all_digits(s: Seq<char>) -> bool {
    forall|i: int| 0 <= i < s.len() ==> is_ascii_digit(#[trigger] s[i])
}

/// The number that a sequence of ASCII digits spells.
pub open spec fn digits_value(s: Seq<char>) -> int
    decreases s.len(),
{
    if s.len() == 0 {
        0
    } else {
        digits_value(s.drop_last()) * 10 + digit_value(s.last())
    }
}

/// What `str::parse::<i64>` accepts and yields: an optional `+` or `-`,
/// then one or more ASCII digits, of a value inside the range of `i64`.
pub open spec fn parse_i64_spec(s: Seq<char>) -> Option<int> {
    if s.len() > 0 && s[0] == '-' {
        let d = s.drop_first();
        if d.len() > 0 && all_digits(d) && -digits_value(d) >= i64::MIN {
            Some(-digits_value(d))
        } else {
            None
        }
    } else {
        let d = if s.len() > 0 && s[0] == '+' {
            s.drop_first()
        } else {
            s
        };
        if d.len() > 0 && all_digits(d) && digits_value(d) <= i64::MAX {
            Some(digits_value(d))
        } else {
            None
        }
    }
}

pub proof fn lemma_digits_value_nonneg(s: Seq<char>)
    requires
        all_digits(s),
    ensures
        digits_value(s) >= 0,
    decreases s.len(),
{
    if s.len() > 0 {
        lemma_digits_value_nonneg(s.drop_last());
    }
}

/// A longer run of digits is worth at least ten times its prefix.
pub proof fn lemma_digits_value_grows(s: Seq<char>, k: int)
    requires
        all_digits(s),
        0 <= k < s.len(),
    ensures
        digits_value(s) >= digits_value(s.take(k)) * 10,
    decreases s.len(),
{
    lemma_digits_value_nonneg(s);
    if k == s.len() - 1 {
        assert(s.take(k) =~= s.drop_last());
    } else {
        lemma_digits_value_grows(s.drop_last(), k);
        assert(s.drop_last().take(k) =~= s.take(k));
        lemma_digits_value_nonneg(s.drop_last());
        lemma_digits_value_nonneg(s.take(k));
    }
}

pub proof fn lemma_decimal_digits(n: nat)
    ensures
        all_digits(decimal(n)),
        digits_value(decimal(n)) == n,
        decimal(n).len() > 0,
        decimal(n)[0] != '-',
        decimal(n)[0] != '+',
    decreases n,
{
    lemma_digit_char((n % 10) as int);
    if n < 10 {
        assert(decimal(n).drop_last() =~= Seq::<char>::empty());
        assert(decimal(n).last() == digit_char(n as int));
        assert(digits_value(decimal(n)) == digits_value(decimal(n).drop_last()) * 10 + digit_value(decimal(n).last()));
    } else {
        lemma_decimal_digits(n / 10);
        assert(decimal(n).drop_last() =~= decimal(n / 10));
        assert(decimal(n).last() == digit_char((n % 10) as int));
        assert(digits_value(decimal(n)) == digits_value(decimal(n / 10)) * 10 + (n % 10));
    }
}

/// Reading back the decimal text of any `i64` gives the same number.
pub proof fn lemma_parse_signed_decimal(n: i64)
    ensures
        parse_i64_spec(signed_decimal(n as int)) == Some(n as int),
{
    if n < 0 {
        let m = (-(n as int)) as nat;
        lemma_decimal_digits(m);
        assert((seq!['-'] + decimal(m)).drop_first() =~= decimal(m));
    } else {
        lemma_decimal_digits(n as nat);
    }
}

/// Writes `n` in decimal, as `i64::to_string` does.
pub fn i64_to_decimal(n: i64) -> (s: String)
    ensures
        s@ == signed_decimal(n as int),
{
    let negative = n < 0;
    let mut m: u64 = if negative {
        ((-(n as i128)) as u64)
    } else {
        n as u64
    };
    let ghost mag: nat = if negative { (-(n as int)) as nat } else { n as nat };
    // digits, least significant first
    let mut rev: Vec<char> = Vec::new();
    if m == 0 {
        rev.push('0');
        proof {
            assert(rev@.reverse() =~= decimal(0));
        }
    } else {
        proof {
            assert(decimal(m as nat) + rev@.reverse() =~= decimal(mag));
        }
        while m > 0
            invariant
                m <= mag,
                decimal_rev_invariant(mag, m as nat, rev@),
            decreases m,
        {
            let d = (m % 10) as u8;
            let c = (d + 48) as char;
            proof {
                assert(c == digit_char((m % 10) as int));
                lemma_decimal_step(mag, m as nat, rev@);
            }
            rev.push(c);
            m = m / 10;
        }
    }
    proof {
        lemma_decimal_done(mag, rev@);
    }
    let mut out: Vec<char> = Vec::new();
    if negative {
        out.push('-');
    }
    let ghost prefix = out@;
    let mut j: usize = rev.len();
    while j > 0
        invariant
            j <= rev@.len(),
            out@ == prefix + rev@.subrange(j as int, rev@.len() as int).reverse(),
        decreases j,
    {
        j = j - 1;
        out.push(rev[j]);
        assert(rev@.subrange(j as int, rev@.len() as int).reverse() =~= rev@.subrange(
            j + 1,
            rev@.len() as int,
        ).reverse().push(rev@[j as int]));
    }
    assert(rev@.subrange(0, rev@.len() as int) =~= rev@);
    string_from_chars(&out)
}

/// While printing `mag`, the digits produced so far (reversed) followed by the
/// decimal form of what is left spell `mag`.
pub open spec fn decimal_rev_invariant(mag: nat, m: nat, rev: Seq<char>) -> bool {
    if m == 0 {
        rev.reverse() == decimal(mag)
    } else {
        decimal(m) + rev.reverse() == decimal(mag)
    }
}

proof fn lemma_decimal_step(mag: nat, m: nat, rev: Seq<char>)
    requires
        m > 0,
        decimal_rev_invariant(mag, m, rev),
    ensures
        decimal_rev_invariant(mag, m / 10, rev.push(digit_char((m % 10) as int))),
{
    let c = digit_char((m % 10) as int);
    assert(rev.push(c).reverse() =~= seq![c] + rev.reverse());
    if m < 10 {
        assert(decimal(m) =~= seq![c]);
    } else {
        assert(decimal(m) == decimal(m / 10).push(c));
        assert(decimal(m / 10).push(c) + rev.reverse() =~= decimal(m / 10) + (seq![c]
            + rev.reverse()));
    }
}

proof fn lemma_decimal_done(mag: nat, rev: Seq<char>)
    requires
        decimal_rev_invariant(mag, 0, rev),
    ensures
        rev.reverse() == decimal(mag),
{
}

/// Parses a decimal `i64` the way `str::parse::<i64>` does.
pub fn parse_i64(s: &str) -> (r: Option<i64>)
    ensures
        match r {
            Some(v) => parse_i64_spec(s@) == Some(v as int),
            None => parse_i64_spec(s@) is None,
        },
{
    let chars = chars_of(s);
    let len = chars.len();
    if len == 0 {
        return None;
    }
    let negative = chars[0] == '-';
    let start: usize = if chars[0] == '-' || chars[0] == '+' {
        1
    } else {
        0
    };
    let ghost d = chars@.subrange(start as int, len as int);
    proof {
        if start == 1 {
            assert(d =~= s@.drop_first());
        } else {
            assert(d =~= s@);
        }
    }
    if start == len {
        return None;
    }
    // magnitudes up to 2^63 are tracked exactly; anything beyond is out of range
    let limit: u64 = 0x8000_0000_0000_0000;
    let mut acc: u64 = 0;
    let mut i: usize = start;
    while i < len
        invariant
            start <= i <= len,
            len == chars@.len(),
            start == 0 || start == 1,
            chars@ == s@,
            len > 0,
            start == 1 <==> (s@[0] == '-' || s@[0] == '+'),
            start == 1 ==> d == s@.drop_first(),
            start == 0 ==> d == s@,
            d == chars@.subrange(start as int, len as int),
            all_digits(chars@.subrange(start as int, i as int)),
            acc as int == digits_value(chars@.subrange(start as int, i as int)),
            acc <= limit,
            limit == 0x8000_0000_0000_0000u64,
        decreases len - i,
    {
        let c = chars[i];
        if !('0' <= c && c <= '9') {
            proof {
                assert(d[i - start] == c);
                assert(!is_ascii_digit(d[i - start]));
            }
            return None;
        }
        let dv = (c as u32 - 48) as u64;
        let ghost pre = chars@.subrange(start as int, i as int);
        let ghost next = chars@.subrange(start as int, i + 1);
        proof {
            assert(next.drop_last() =~= pre);
            assert(next.last() == c);
            assert(all_digits(next));
        }
        if acc > (limit - dv) / 10 {
            proof {
                assert(acc * 10 + dv > limit) by (nonlinear_arith)
                    requires
                        acc > (limit - dv) / 10,
                        dv <= 9,
                        limit == 0x8000_0000_0000_0000u64,
                ;
                assert(digits_value(next) > limit);
                if all_digits(d) {
                    let k = i + 1 - start;
                    assert(d.take(k) =~= next);
                    if k < d.len() {
                        lemma_digits_value_grows(d, k);
                        lemma_digits_value_nonneg(next);
                    } else {
                        assert(d =~= next);
                    }
                }
            }
            return None;
        }
        proof {
            assert(acc * 10 + dv <= limit) by (nonlinear_arith)
                requires
                    acc <= (limit - dv) / 10,
                    dv <= 9,
                    limit == 0x8000_0000_0000_0000u64,
            ;
        }
        acc = acc * 10 + dv;
        i = i + 1;
    }
    assert(chars@.subrange(start as int, len as int) == d);
    if negative {
        proof {
            assert(d =~= s@.drop_first());
        }
        if acc == limit {
            Some(-0x7fff_ffff_ffff_ffff - 1)
        } else {
            Some(-(acc as i64))
        }
    } else {
        if acc == limit {
            None
        } else {
            Some(acc as i64)
        }
    }
}

/// Strict lexicographic order of texts by code point, which is also the
/// order SQLite's BINARY collation gives to their UTF-8 bytes.
pub open spec fn text_less(a: Seq<char>, b: Seq<char>) -> bool
    decreases a.len(),
{
    if a.len() == 0 {
        b.len() > 0
    } else if b.len() == 0 {
        false
    } else if a[0] != b[0] {
        a[0] < b[0]
    } else {
        text_less(a.drop_first(), b.drop_first())
    }
}

pub proof fn lemma_text_less_irreflexive(a: Seq<char>)
    ensures
        !text_less(a, a),
    decreases a.len(),
{
    if a.len() > 0 {
        lemma_text_less_irreflexive(a.drop_first());
    }
}

pub proof fn lemma_text_less_total(a: Seq<char>, b: Seq<char>)
    ensures
        text_less(a, b) || a == b || text_less(b, a),
    decreases a.len(),
{
    if a.len() > 0 && b.len() > 0 && a[0] == b[0] {
        lemma_text_less_total(a.drop_first(), b.drop_first());
        if a.drop_first() == b.drop_first() {
            assert(a =~= seq![a[0]] + a.drop_first());
            assert(b =~= seq![b[0]] + b.drop_first());
        }
    } else if a.len() == 0 && b.len() == 0 {
        assert(a =~= b);
    } else if a.len() > 0 && b.len() > 0 {
    }
}

pub proof fn lemma_text_less_asymmetric(a: Seq<char>, b: Seq<char>)
    requires
        text_less(a, b),
    ensures
        !text_less(b, a),
    decreases a.len(),
{
    if a.len() > 0 && b.len() > 0 && a[0] == b[0] {
        lemma_text_less_asymmetric(a.drop_first(), b.drop_first());
    }
}

pub proof fn lemma_text_less_transitive(a: Seq<char>, b: Seq<char>, c: Seq<char>)
    requires
        text_less(a, b),
        text_less(b, c),
    ensures
        text_less(a, c),
    decreases a.len(),
{
    if a.len() > 0 && b.len() > 0 && c.len() > 0 {
        if a[0] == b[0] && b[0] == c[0] {
            lemma_text_less_transitive(a.drop_first(), b.drop_first(), c.drop_first());
        }
    }
}

/// Whether `a` comes strictly before `b` (see `text_less`).
pub fn text_less_exec(a: &str, b: &str) -> (r: bool)
    ensures
        r == text_less(a@, b@),
{
    let x = chars_of(a);
    let y = chars_of(b);
    let mut i: usize = 0;
    assert(x@.skip(0) =~= x@);
    assert(y@.skip(0) =~= y@);
    while i < x.len() && i < y.len() && x[i] == y[i]
        invariant
            0 <= i <= x@.len(),
            i <= y@.len(),
            x@ == a@,
            y@ == b@,
            text_less(a@, b@) == text_less(x@.skip(i as int), y@.skip(i as int)),
        decreases x@.len() - i,
    {
        proof {
            assert(x@.skip(i as int).drop_first() =~= x@.skip(i + 1));
            assert(y@.skip(i as int).drop_first() =~= y@.skip(i + 1));
        }
        i = i + 1;
    }
    if i == x.len() {
        i < y.len()
    } else if i == y.len() {
        false
    } else {
        assert(x@.skip(i as int)[0] == x@[i as int]);
        assert(y@.skip(i as int)[0] == y@[i as int]);
        x[i] < y[i]
    }
}

/// Whether two texts are equal.
pub fn text_eq(a: &str, b: &str) -> (r: bool)
    ensures
        r == (a@ == b@),
{
    let x = chars_of(a);
    let y = chars_of(b);
    if x.len() != y.len() {
        return false;
    }
    let mut i: usize = 0;
    while i < x.len()
        invariant
            0 <= i <= x@.len(),
            x@.len() == y@.len(),
            x@ == a@,
            y@ == b@,
            forall|j: int| 0 <= j < i ==> x@[j] == y@[j],
        decreases x@.len() - i,
    {
        if x[i] != y[i] {
            return false;
        }
        i = i + 1;
    }
    assert(x@ =~= y@);
    true
}

} // verus!
