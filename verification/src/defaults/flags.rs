//! Type flags of `defaults write` and the text a value compares as.
use vstd::prelude::*;
use crate::number::{
    inf_word, nan_word,
    count_dots, decimal_string, f64_literal, i64_literal, int_decimal, is_f64_literal, is_i64_literal, is_digit, lemma_dot_not_digits,
    lemma_int_decimal_literal, lower_seq, mantissa, unsigned_part,
};
use crate::text::{chars_of, owned};
use crate::value::{value_view, ConfigValue, ValueView};

verus! {

pub open spec fn bool_flag() -> Seq<char> {
    seq!['-', 'b', 'o', 'o', 'l']
}

pub open spec fn int_flag() -> Seq<char> {
    seq!['-', 'i', 'n', 't']
}

pub open spec fn float_flag() -> Seq<char> {
    seq!['-', 'f', 'l', 'o', 'a', 't']
}

pub open spec fn string_flag() -> Seq<char> {
    seq!['-', 's', 't', 'r', 'i', 'n', 'g']
}

pub open spec fn true_word() -> Seq<char> {
    seq!['t', 'r', 'u', 'e']
}

pub open spec fn false_word() -> Seq<char> {
    seq!['f', 'a', 'l', 's', 'e']
}

/// Why a value has no `defaults` type flag.
pub enum FlagError {
    /// Arrays, tables and date-times cannot be written with a type flag.
    UnsupportedType,
}

/// The flag and text `defaults write` takes for a configured value; none
/// for arrays, tables and date-times.
pub open spec fn flag_of(v: ValueView) -> Option<(Seq<char>, Seq<char>)> {
    match v {
        ValueView::Boolean(b) => Some((bool_flag(), if b { true_word() } else { false_word() })),
        ValueView::Integer(n) => Some((int_flag(), int_decimal(n as int))),
        ValueView::Float(t) => Some((float_flag(), t)),
        ValueView::Text(s) => Some((string_flag(), s)),
        _ => None,
    }
}

/// The flag a text read back from `defaults` is written again with:
/// `1`, `0`, `true` and `false` are booleans, then integers, then floats,
/// and anything else is a string.
pub open spec fn flag_for_text(v: Seq<char>) -> Seq<char> {
    if v == seq!['1'] || v == seq!['0'] || v == true_word() || v == false_word() {
        bool_flag()
    } else if i64_literal(v) {
        int_flag()
    } else if f64_literal(v) {
        float_flag()
    } else {
        string_flag()
    }
}

/// The text a configured value compares as against what `defaults read`
/// prints: `1`/`0` for booleans, the string itself for strings, and the TOML
/// text of any other value.
pub open spec fn normalized(v: ValueView) -> Seq<char> {
    match v {
        ValueView::Boolean(b) => if b { seq!['1'] } else { seq!['0'] },
        ValueView::Text(s) => s,
        ValueView::Integer(n) => int_decimal(n as int),
        ValueView::Float(t) => t,
        ValueView::Datetime(t) => t,
        ValueView::Array(_, t) => t,
        ValueView::Table(_, t) => t,
    }
}

fn bool_flag_str() -> (r: &'static str)
    ensures
        r@ == bool_flag(),
{
    proof {
        reveal_strlit("-bool");
    }
    let r = "-bool";
    assert(r@ =~= bool_flag());
    r
}

fn int_flag_str() -> (r: &'static str)
    ensures
        r@ == int_flag(),
{
    proof {
        reveal_strlit("-int");
    }
    let r = "-int";
    assert(r@ =~= int_flag());
    r
}

fn float_flag_str() -> (r: &'static str)
    ensures
        r@ == float_flag(),
{
    proof {
        reveal_strlit("-float");
    }
    let r = "-float";
    assert(r@ =~= float_flag());
    r
}

fn string_flag_str() -> (r: &'static str)
    ensures
        r@ == string_flag(),
{
    proof {
        reveal_strlit("-string");
    }
    let r = "-string";
    assert(r@ =~= string_flag());
    r
}

/// `true` or `false`.
pub fn bool_word(b: bool) -> (r: String)
    ensures
        r@ == if b { true_word() } else { false_word() },
{
    if b {
        let v = vec!['t', 'r', 'u', 'e'];
        assert(v@ =~= true_word());
        crate::text::string_of(&v)
    } else {
        let v = vec!['f', 'a', 'l', 's', 'e'];
        assert(v@ =~= false_word());
        crate::text::string_of(&v)
    }
}

/// The `defaults write` flag and value text of a configured value.
pub fn to_flag(value: &ConfigValue) -> (r: Result<(&'static str, String), FlagError>)
    ensures
        match flag_of(value_view(*value)) {
            Some(p) => r matches Ok(q) && (q.0@, q.1@) == p,
            None => r is Err,
        },
{
    match value {
        ConfigValue::Boolean(b) => Ok((bool_flag_str(), bool_word(*b))),
        ConfigValue::Integer(n) => Ok((int_flag_str(), decimal_string(*n))),
        ConfigValue::Float(t) => Ok((float_flag_str(), t.clone())),
        ConfigValue::Text(s) => Ok((string_flag_str(), s.clone())),
        _ => Err(FlagError::UnsupportedType),
    }
}

/// The flag a value read back from `defaults` is written again with.
pub fn from_flag(value: &str) -> (r: Result<(&'static str, String), FlagError>)
    ensures
        r matches Ok(q) && q.0@ == flag_for_text(value@) && q.1@ == value@,
{
    let v = chars_of(value);
    let one = vec!['1'];
    let zero = vec!['0'];
    let t = vec!['t', 'r', 'u', 'e'];
    let f = vec!['f', 'a', 'l', 's', 'e'];
    assert(one@ =~= seq!['1']);
    assert(zero@ =~= seq!['0']);
    assert(t@ =~= true_word());
    assert(f@ =~= false_word());
    let is_bool = crate::text::chars_eq(&v, &one) || crate::text::chars_eq(&v, &zero)
        || crate::text::chars_eq(&v, &t) || crate::text::chars_eq(&v, &f);
    assert(is_bool == (value@ == seq!['1'] || value@ == seq!['0'] || value@ == true_word() || value@ == false_word()));
    if is_bool {
        return Ok((bool_flag_str(), owned(value)));
    }
    if is_i64_literal(&v) {
        return Ok((int_flag_str(), owned(value)));
    }
    if is_f64_literal(&v) {
        return Ok((float_flag_str(), owned(value)));
    }
    Ok((string_flag_str(), owned(value)))
}

/// The text a configured value compares as.
pub fn normalize(value: &ConfigValue) -> (r: String)
    ensures
        r@ == normalized(value_view(*value)),
{
    match value {
        ConfigValue::Boolean(b) => {
            if *b {
                let v = vec!['1'];
                assert(v@ =~= seq!['1']);
                crate::text::string_of(&v)
            } else {
                let v = vec!['0'];
                assert(v@ =~= seq!['0']);
                crate::text::string_of(&v)
            }
        },
        ConfigValue::Text(s) => s.clone(),
        ConfigValue::Integer(n) => decimal_string(*n),
        ConfigValue::Float(t) => t.clone(),
        ConfigValue::Datetime(t) => t.clone(),
        ConfigValue::Array(_, t) => t.clone(),
        ConfigValue::Table(_, t) => t.clone(),
    }
}


/// A float's text written with one decimal point: an optional sign, then
/// digits around a single `.`, as TOML writes finite floats.
pub open spec fn dotted_float(t: Seq<char>) -> bool {
    mantissa(unsigned_part(t)) && count_dots(unsigned_part(t)) == 1
}

/// A float's text as TOML writes it: with one decimal point, or an
/// optionally signed `inf` or `nan`.
pub open spec fn toml_float_text(t: Seq<char>) -> bool {
    dotted_float(t) || unsigned_part(t) == inf_word() || unsigned_part(t) == nan_word()
}

/// The values whose `defaults` text is read back with the flag they were
/// written with: booleans, integers other than 0 and 1, and floats.
pub open spec fn round_trips(v: ValueView) -> bool {
    match v {
        ValueView::Boolean(_) => true,
        ValueView::Integer(n) => n != 0 && n != 1,
        ValueView::Float(t) => toml_float_text(t),
        _ => false,
    }
}

/// The flag [`from_flag`] recovers from the text [`to_flag`] writes for a
/// value is the flag [`to_flag`] chose, for booleans, integers other than 0
/// and 1 (which read back as booleans), and floats as TOML writes them.
pub proof fn law_flag_round_trip(v: ValueView)
    requires
        round_trips(v),
    ensures
        flag_of(v) matches Some(p) && flag_for_text(p.1) == p.0,
{
    match v {
        ValueView::Boolean(b) => {
            let w = if b { true_word() } else { false_word() };
            assert(w == true_word() || w == false_word());
        },
        ValueView::Integer(n) => {
            lemma_int_decimal_literal(n);
            let s = int_decimal(n as int);
            assert(s != true_word() && s != false_word()) by {
                if s == true_word() || s == false_word() {
                    assert(s[0] == 't' || s[0] == 'f');
                }
            }
        },
        ValueView::Float(t) => {
            if !dotted_float(t) {
                lemma_special_float(t);
                return;
            }
            let b = unsigned_part(t);
            assert(forall|i: int| 0 <= i < t.len() ==> !('A' <= #[trigger] t[i] && t[i] <= 'Z')) by {
                assert forall|i: int| 0 <= i < t.len() implies !('A' <= #[trigger] t[i] && t[i] <= 'Z') by {
                    if t.len() > 0 && (t[0] == '+' || t[0] == '-') {
                        if i > 0 {
                            assert(t[i] == b[i - 1]);
                            assert(is_digit(b[i - 1]) || b[i - 1] == '.');
                        }
                    } else {
                        assert(t[i] == b[i]);
                        assert(is_digit(b[i]) || b[i] == '.');
                    }
                }
            }
            assert(lower_seq(t) =~= t);
            assert(crate::number::number_literal(b));
            assert(f64_literal(t));
            lemma_dot_not_digits(b);
            assert(!i64_literal(t));
            assert(t != seq!['1'] && t != seq!['0'] && t != true_word() && t != false_word()) by {
                if t == seq!['1'] || t == seq!['0'] {
                    assert(b == t);
                    assert(t.drop_last() =~= Seq::<char>::empty());
                    assert(count_dots(t) == count_dots(t.drop_last()));
                }
                if t == true_word() || t == false_word() {
                    assert(b == t);
                    assert(!(is_digit(b[0]) || b[0] == '.'));
                }
            }
        },
        _ => {},
    }
}


/// An optionally signed `inf` or `nan` reads back as a float.
proof fn lemma_special_float(t: Seq<char>)
    requires
        unsigned_part(t) == inf_word() || unsigned_part(t) == nan_word(),
    ensures
        flag_for_text(t) == float_flag(),
{
    let b = unsigned_part(t);
    let signed = t.len() > 0 && (t[0] == '+' || t[0] == '-');
    assert(b.len() == 3);
    assert forall|j: int| 0 <= j < 3 implies #[trigger] b[j] == 'i' || b[j] == 'n' || b[j] == 'f' || b[j] == 'a' by {
        if j == 0 {} else if j == 1 {} else {}
    }
    assert forall|i: int| 0 <= i < t.len() implies !('A' <= #[trigger] t[i] && t[i] <= 'Z') by {
        if signed {
            if i > 0 {
                assert(t[i] == b[i - 1]);
            }
        } else {
            assert(t[i] == b[i]);
        }
    }
    assert(lower_seq(t) =~= t);
    assert(f64_literal(t));
    assert(!is_digit(b[0]));
    assert(!crate::number::all_digits(b));
    assert(!i64_literal(t));
    assert(t != seq!['1'] && t != seq!['0'] && t != true_word() && t != false_word()) by {
        if t == seq!['1'] || t == seq!['0'] || t == true_word() || t == false_word() {
            assert(!crate::number::is_sign(t[0]));
            assert(b == t);
            assert(b[0] == 'i' || b[0] == 'n');
        }
    }
}

} // verus!
