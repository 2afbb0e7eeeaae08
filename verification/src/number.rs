//! Recognition of number literals and decimal writing of integers.
use vstd::prelude::*;

verus! {

pub open spec fn is_digit(c: char) -> bool {
    '0' <= c && c <= '9'
}

pub open spec fn digit_val(c: char) -> nat {
    ((c as int) - 48) as nat
}

pub open spec fn is_sign(c: char) -> bool {
    c == '+' || c == '-'
}

pub open spec fn all_digits(s: Seq<char>) -> bool {
    forall|i: int| 0 <= i < s.len() ==> #[trigger] is_digit(s[i])
}

/// The value of a string of decimal digits.
pub open spec fn digits_value(s: Seq<char>) -> nat
    decreases s.len(),
{
    if s.len() == 0 {
        0
    } else {
        digits_value(s.drop_last()) * 10 + digit_val(s.last())
    }
}

/// The text after an optional leading sign.
pub open spec fn unsigned_part(s: Seq<char>) -> Seq<char> {
    if s.len() > 0 && is_sign(s[0]) {
        s.skip(1)
    } else {
        s
    }
}

/// `s` is what std's `i64` parser accepts: an optional sign, then one or
/// more decimal digits, with a value inside the range of `i64`.
pub open spec fn i64_literal(s: Seq<char>) -> bool {
    let body = unsigned_part(s);
    let neg = s.len() > 0 && s[0] == '-';
    &&& body.len() > 0
    &&& all_digits(body)
    &&& if neg {
        digits_value(body) <= 0x8000_0000_0000_0000
    } else {
        digits_value(body) <= 0x7fff_ffff_ffff_ffff
    }
}

pub proof fn lemma_digits_value_monotone(s: Seq<char>, i: int, j: int)
    requires
        0 <= i <= j <= s.len(),
        all_digits(s),
    ensures
        digits_value(s.take(i)) <= digits_value(s.take(j)),
    decreases j - i,
{
    if i < j {
        lemma_digits_value_monotone(s, i, j - 1);
        assert(s.take(j).drop_last() =~= s.take(j - 1));
        assert(is_digit(s[j - 1]));
    }
}

/// Whether `s` is an `i64` literal, as [`i64_literal`] says.
pub fn is_i64_literal(s: &Vec<char>) -> (r: bool)
    ensures
        r == i64_literal(s@),
{
    let signed = s.len() > 0 && (s[0] == '+' || s[0] == '-');
    let neg = s.len() > 0 && s[0] == '-';
    let start: usize = if signed { 1 } else { 0 };
    let ghost body = unsigned_part(s@);
    assert(body =~= s@.skip(start as int));
    if start == s.len() {
        return false;
    }
    let limit: u64 = if neg { 0x8000_0000_0000_0000 } else { 0x7fff_ffff_ffff_ffff };
    let mut acc: u64 = 0;
    let mut i: usize = start;
    while i < s.len()
        invariant
            start <= i <= s.len(),
            body == s@.skip(start as int),
            body == unsigned_part(s@),
            neg == (s@.len() > 0 && s@[0] == '-'),
            limit == if neg { 0x8000_0000_0000_0000u64 } else { 0x7fff_ffff_ffff_ffffu64 },
            acc as nat == digits_value(body.take(i - start)),
            acc <= limit,
            all_digits(body.take(i - start)),
        decreases s.len() - i,
    {
        let c = s[i];
        assert(body[i - start] == c);
        assert(body.take(i - start + 1).drop_last() =~= body.take(i - start));
        if !('0' <= c && c <= '9') {
            assert(!is_digit(body[i - start]));
            return false;
        }
        let d: u64 = (c as u32 - 48u32) as u64;
        assert(d <= 9);
        if acc > (limit - d) / 10 {
            assert(acc * 10 + d > limit) by (nonlinear_arith)
                requires
                    acc > (limit - d) / 10,
                    d <= limit,
            ;
            proof {
                if all_digits(body) {
                    lemma_digits_value_monotone(body, i - start + 1, body.len() as int);
                    assert(body.take(body.len() as int) =~= body);
                }
            }
            return false;
        }
        assert(acc * 10 + d <= limit) by (nonlinear_arith)
            requires
                acc <= (limit - d) / 10,
                d <= limit,
        ;
        acc = acc * 10 + d;
        i = i + 1;
        assert(all_digits(body.take(i - start))) by {
            assert forall|k: int| 0 <= k < body.take(i - start).len() implies #[trigger] is_digit(body.take(i - start)[k]) by {
                if k < i - start - 1 {
                    assert(body.take(i - start)[k] == body.take(i - start - 1)[k]);
                }
            }
        }
    }
    assert(body.take(s.len() - start) =~= body);
    true
}

/// ASCII lower-casing of one character.
pub open spec fn lower(c: char) -> char {
    if 'A' <= c && c <= 'Z' {
        ((c as int) + 32) as char
    } else {
        c
    }
}

pub open spec fn lower_seq(s: Seq<char>) -> Seq<char> {
    s.map_values(|c: char| lower(c))
}

/// The number of digits in `s`.
pub open spec fn count_digits(s: Seq<char>) -> nat
    decreases s.len(),
{
    if s.len() == 0 {
        0
    } else {
        count_digits(s.drop_last()) + if is_digit(s.last()) { 1nat } else { 0nat }
    }
}

/// The number of dots in `s`.
pub open spec fn count_dots(s: Seq<char>) -> nat
    decreases s.len(),
{
    if s.len() == 0 {
        0
    } else {
        count_dots(s.drop_last()) + if s.last() == '.' { 1nat } else { 0nat }
    }
}

/// Digits with at most one dot, and at least one digit: `Digit+`,
/// `Digit+ '.' Digit*` or `Digit* '.' Digit+`.
pub open spec fn mantissa(m: Seq<char>) -> bool {
    &&& forall|i: int| 0 <= i < m.len() ==> #[trigger] is_digit(m[i]) || m[i] == '.'
    &&& count_dots(m) <= 1
    &&& count_digits(m) >= 1
}

/// An exponent after the `e`: an optional sign, then one or more digits.
pub open spec fn exponent_part(x: Seq<char>) -> bool {
    unsigned_part(x).len() > 0 && all_digits(unsigned_part(x))
}

/// A lower-cased `Number` of std's float grammar: a mantissa, optionally
/// followed by `e` and an exponent.
pub open spec fn number_literal(b: Seq<char>) -> bool {
    mantissa(b) || exists|i: int| 0 <= i < b.len() && b[i] == 'e' && #[trigger] mantissa(b.take(i)) && exponent_part(b.skip(i + 1))
}

pub open spec fn inf_word() -> Seq<char> {
    seq!['i', 'n', 'f']
}

pub open spec fn infinity_word() -> Seq<char> {
    seq!['i', 'n', 'f', 'i', 'n', 'i', 't', 'y']
}

pub open spec fn nan_word() -> Seq<char> {
    seq!['n', 'a', 'n']
}

/// `s` is what std's `f64` parser accepts: once lower-cased, an optional
/// sign followed by `inf`, `infinity`, `nan` or a number.
pub open spec fn f64_literal(s: Seq<char>) -> bool {
    let b = unsigned_part(lower_seq(s));
    b == inf_word() || b == infinity_word() || b == nan_word() || number_literal(b)
}

fn lower_chars(s: &Vec<char>) -> (r: Vec<char>)
    ensures
        r@ == lower_seq(s@),
{
    let mut r: Vec<char> = Vec::new();
    let mut i: usize = 0;
    while i < s.len()
        invariant
            i <= s.len(),
            r@ == lower_seq(s@).take(i as int),
        decreases s.len() - i,
    {
        let c = s[i];
        let l = if 'A' <= c && c <= 'Z' {
            let n: u8 = (c as u32 + 32) as u8;
            n as char
        } else {
            c
        };
        r.push(l);
        i = i + 1;
        assert(r@ =~= lower_seq(s@).take(i as int));
    }
    assert(lower_seq(s@).take(s.len() as int) =~= lower_seq(s@));
    r
}

/// Whether `m` is a mantissa, as [`mantissa`] says.
fn is_mantissa(m: &Vec<char>) -> (r: bool)
    ensures
        r == mantissa(m@),
{
    let mut digits: usize = 0;
    let mut dots: usize = 0;
    let mut i: usize = 0;
    while i < m.len()
        invariant
            i <= m.len(),
            digits == count_digits(m@.take(i as int)),
            dots == count_dots(m@.take(i as int)),
            dots <= 1,
            digits <= i,
            forall|k: int| 0 <= k < i ==> #[trigger] is_digit(m@[k]) || m@[k] == '.',
        decreases m.len() - i,
    {
        let c = m[i];
        assert(m@.take(i + 1).drop_last() =~= m@.take(i as int));
        if '0' <= c && c <= '9' {
            digits = digits + 1;
        } else if c == '.' {
            if dots == 1 {
                proof {
                    lemma_counts_monotone(m@, i + 1, m.len() as int);
                    assert(m@.take(m.len() as int) =~= m@);
                }
                return false;
            }
            dots = dots + 1;
        } else {
            assert(!(is_digit(m@[i as int]) || m@[i as int] == '.'));
            return false;
        }
        i = i + 1;
    }
    assert(m@.take(m.len() as int) =~= m@);
    digits >= 1
}

pub proof fn lemma_counts_monotone(s: Seq<char>, i: int, j: int)
    requires
        0 <= i <= j <= s.len(),
    ensures
        count_dots(s.take(i)) <= count_dots(s.take(j)),
        count_digits(s.take(i)) <= count_digits(s.take(j)),
    decreases j - i,
{
    if i < j {
        lemma_counts_monotone(s, i, j - 1);
        assert(s.take(j).drop_last() =~= s.take(j - 1));
    }
}

/// Whether `x` is an exponent, as [`exponent_part`] says.
fn is_exponent(x: &Vec<char>) -> (r: bool)
    ensures
        r == exponent_part(x@),
{
    let start: usize = if x.len() > 0 && (x[0] == '+' || x[0] == '-') { 1 } else { 0 };
    let ghost body = unsigned_part(x@);
    assert(body =~= x@.skip(start as int));
    if start == x.len() {
        return false;
    }
    let mut i: usize = start;
    while i < x.len()
        invariant
            start <= i <= x.len(),
            body == x@.skip(start as int),
            body == unsigned_part(x@),
            forall|k: int| 0 <= k < i - start ==> #[trigger] is_digit(body[k]),
        decreases x.len() - i,
    {
        if !('0' <= x[i] && x[i] <= '9') {
            assert(!is_digit(body[i - start]));
            return false;
        }
        i = i + 1;
    }
    true
}

fn word_eq(a: &Vec<char>, w: &[char]) -> (r: bool)
    ensures
        r == (a@ == w@),
{
    if a.len() != w.len() {
        return false;
    }
    let mut i: usize = 0;
    while i < a.len()
        invariant
            a.len() == w@.len(),
            i <= a.len(),
            forall|j: int| 0 <= j < i ==> a@[j] == w@[j],
        decreases a.len() - i,
    {
        if a[i] != w[i] {
            return false;
        }
        i = i + 1;
    }
    assert(a@ =~= w@);
    true
}

/// Whether `s` is an `f64` literal, as [`f64_literal`] says.
pub fn is_f64_literal(s: &Vec<char>) -> (r: bool)
    ensures
        r == f64_literal(s@),
{
    let l = lower_chars(s);
    let start: usize = if l.len() > 0 && (l[0] == '+' || l[0] == '-') { 1 } else { 0 };
    let b = crate::text::skip_chars(&l, start);
    assert(b@ =~= unsigned_part(lower_seq(s@)));
    let inf = ['i', 'n', 'f'];
    let infinity = ['i', 'n', 'f', 'i', 'n', 'i', 't', 'y'];
    let nan = ['n', 'a', 'n'];
    assert(inf@ =~= inf_word());
    assert(infinity@ =~= infinity_word());
    assert(nan@ =~= nan_word());
    if word_eq(&b, &inf) || word_eq(&b, &infinity) || word_eq(&b, &nan) {
        return true;
    }
    let mut p: usize = 0;
    while p < b.len() && b[p] != 'e'
        invariant
            p <= b.len(),
            forall|k: int| 0 <= k < p ==> b@[k] != 'e',
        decreases b.len() - p,
    {
        p = p + 1;
    }
    if p == b.len() {
        let r = is_mantissa(&b);
        assert(r == number_literal(b@)) by {
            assert forall|i: int| 0 <= i < b@.len() && b@[i] == 'e' implies !(#[trigger] mantissa(b@.take(i)) && exponent_part(b@.skip(i + 1))) by {
            }
        }
        r
    } else {
        let head = crate::text::take_chars(&b, p);
        let tail = crate::text::skip_chars(&b, p + 1);
        let r = is_mantissa(&head) && is_exponent(&tail);
        assert(!mantissa(b@)) by {
            assert(!(is_digit(b@[p as int]) || b@[p as int] == '.'));
        }
        assert(r == number_literal(b@)) by {
            if r {
                assert(b@[p as int] == 'e' && mantissa(b@.take(p as int)) && exponent_part(b@.skip(p + 1)));
            } else {
                assert forall|i: int| 0 <= i < b@.len() && b@[i] == 'e' implies !(#[trigger] mantissa(b@.take(i)) && exponent_part(b@.skip(i + 1))) by {
                    if i > p {
                        assert(b@.take(i)[p as int] == 'e');
                        assert(!(is_digit(b@.take(i)[p as int]) || b@.take(i)[p as int] == '.'));
                    } else if i < p {
                        assert(b@[i] != 'e');
                    }
                }
            }
        }
        r
    }
}

/// The character of a decimal digit.
pub open spec fn digit_char(d: nat) -> char {
    ((d + 48) as int) as char
}

/// The decimal digits of a natural number, without leading zeros.
pub open spec fn nat_decimal(n: nat) -> Seq<char>
    decreases n,
{
    if n < 10 {
        seq![digit_char(n)]
    } else {
        nat_decimal(n / 10).push(digit_char(n % 10))
    }
}

/// The decimal text of an integer, with a leading `-` when negative.
pub open spec fn int_decimal(n: int) -> Seq<char> {
    if n < 0 {
        seq!['-'] + nat_decimal((-n) as nat)
    } else {
        nat_decimal(n as nat)
    }
}

fn push_decimal(m: u64, out: &mut Vec<char>)
    ensures
        final(out)@ == old(out)@ + nat_decimal(m as nat),
    decreases m,
{
    if m >= 10 {
        push_decimal(m / 10, out);
    }
    let d: u8 = (m % 10) as u8;
    let c = (48u8 + d) as char;
    assert(c == digit_char((m % 10) as nat));
    out.push(c);
    proof {
        if m >= 10 {
            assert(nat_decimal(m as nat) == nat_decimal((m / 10) as nat).push(digit_char((m % 10) as nat)));
        }
    }
    assert(out@ =~= old(out)@ + nat_decimal(m as nat));
}

/// The decimal text of an `i64`, as std writes it.
pub fn decimal_string(n: i64) -> (r: String)
    ensures
        r@ == int_decimal(n as int),
{
    let mut out: Vec<char> = Vec::new();
    let m: u64 = if n < 0 {
        out.push('-');
        (0i128 - n as i128) as u64
    } else {
        n as u64
    };
    push_decimal(m, &mut out);
    assert(out@ =~= int_decimal(n as int));
    crate::text::string_of(&out)
}


/// The decimal digits of `n` are digits, at least one, and read back as `n`.
pub proof fn lemma_nat_decimal(n: nat)
    ensures
        nat_decimal(n).len() >= 1,
        all_digits(nat_decimal(n)),
        digits_value(nat_decimal(n)) == n,
    decreases n,
{
    if n >= 10 {
        lemma_nat_decimal(n / 10);
        let s = nat_decimal(n);
        assert(s.drop_last() =~= nat_decimal(n / 10));
        let d = (n % 10) as nat;
        assert(digit_val(digit_char(d)) == d);
        assert(n == (n / 10) * 10 + d);
        assert(digits_value(s) == digits_value(nat_decimal(n / 10)) * 10 + digit_val(s.last()));
        assert forall|i: int| 0 <= i < s.len() implies #[trigger] is_digit(s[i]) by {
            if i < s.len() - 1 {
                assert(s[i] == nat_decimal(n / 10)[i]);
            }
        }
    } else {
        let s = nat_decimal(n);
        assert(s.drop_last() =~= Seq::<char>::empty());
        assert(digit_val(digit_char(n)) == n);
        assert(digits_value(s) == digits_value(s.drop_last()) * 10 + digit_val(s.last()));
    }
}

/// The decimal text of an `i64` is what std's `i64` parser accepts.
pub proof fn lemma_int_decimal_literal(n: i64)
    ensures
        i64_literal(int_decimal(n as int)),
        int_decimal(n as int) == seq!['1'] ==> n == 1,
        int_decimal(n as int) == seq!['0'] ==> n == 0,
        int_decimal(n as int)[0] == '-' || is_digit(int_decimal(n as int)[0]),
{
    let s = int_decimal(n as int);
    if n < 0 {
        lemma_nat_decimal((-n) as nat);
        assert(s.skip(1) =~= nat_decimal((-n) as nat));
        assert(s[0] == '-');
        assert(s != seq!['1'] && s != seq!['0']) by {
            if s == seq!['1'] || s == seq!['0'] {
                assert(s[0] != '-');
            }
        }
    } else {
        lemma_nat_decimal(n as nat);
        assert(is_digit(s[0]));
        assert(!is_sign(s[0]));
        if s == seq!['1'] {
            assert(s.drop_last() =~= Seq::<char>::empty());
            assert(digit_val('1') == 1);
            assert(digits_value(s) == digits_value(s.drop_last()) * 10 + digit_val(s.last()));
        }
        if s == seq!['0'] {
            assert(s.drop_last() =~= Seq::<char>::empty());
            assert(digit_val('0') == 0);
            assert(digits_value(s) == digits_value(s.drop_last()) * 10 + digit_val(s.last()));
        }
    }
}

/// A text with a dot in it has a character that is not a digit.
pub proof fn lemma_dot_not_digits(s: Seq<char>)
    requires
        count_dots(s) > 0,
    ensures
        !all_digits(s),
    decreases s.len(),
{
    if s.last() != '.' {
        lemma_dot_not_digits(s.drop_last());
        let i = choose|i: int| 0 <= i < s.drop_last().len() && !is_digit(#[trigger] s.drop_last()[i]);
        assert(!is_digit(s[i]));
    } else {
        assert(!is_digit(s[s.len() - 1]));
    }
}

} // verus!
