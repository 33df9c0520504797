//! Parsing of the textual argument forms: pairs, flags and complex points.
//!
//! Integer components are parsed by verified code whose contract is exact
//! decimal interpretation, the same strings accepted as the standard
//! library's integer parser accepts: an optional leading plus, then one or
//! more digits, rejected on overflow.  Double-precision components are
//! parsed by the standard library behind a trusted wrapper, the result
//! named by an uninterpreted spec function of the characters alone.

use vstd::prelude::*;
use vstd::string::StrSliceExecFns;
use vstd::arithmetic::div_mod::{lemma_fundamental_div_mod, lemma_mod_division_less_than_divisor};
use crate::complex::Complex;

verus! {

/// The separator between the two components of a complex point's text form.
pub const COMPLEX_SEPARATOR: char = ',';

/// Whether the character is a decimal digit.
pub open spec fn is_decimal_digit(c: char) -> bool {
    48 <= c as u32 <= 57
}

/// The numeric value of a decimal digit.
pub open spec fn digit_value(c: char) -> int {
    c as u32 - 48
}

/// Every character of the sequence is a decimal digit.
pub open spec fn all_decimal_digits(s: Seq<char>) -> bool {
    forall|k: int| 0 <= k < s.len() ==> is_decimal_digit(#[trigger] s[k])
}

/// The integer a digit sequence denotes, most significant digit first.
pub open spec fn decimal_value(s: Seq<char>) -> int
    decreases s.len(),
{
    if s.len() == 0 {
        0
    } else {
        decimal_value(s.drop_last()) * 10 + digit_value(s.last())
    }
}

/// The digit part of an integer's text form: everything after an optional
/// leading plus sign.
pub open spec fn decimal_digits(s: Seq<char>) -> Seq<char> {
    if s.len() > 0 && s[0] == '+' {
        s.subrange(1, s.len() as int)
    } else {
        s
    }
}

/// The unsigned 64-bit integer a string denotes: its digit part must be
/// nonempty, all digits, and denote a value that fits.
pub open spec fn u64_from_decimal(s: Seq<char>) -> Option<u64> {
    let d = decimal_digits(s);
    if d.len() >= 1 && all_decimal_digits(d) && decimal_value(d) <= u64::MAX {
        Some(decimal_value(d) as u64)
    } else {
        None
    }
}

/// The machine-word integer a string denotes, on the same terms.
pub open spec fn usize_from_decimal(s: Seq<char>) -> Option<usize> {
    let d = decimal_digits(s);
    if d.len() >= 1 && all_decimal_digits(d) && decimal_value(d) <= usize::MAX {
        Some(decimal_value(d) as usize)
    } else {
        None
    }
}

proof fn lemma_decimal_value_snoc(p: Seq<char>, c: char)
    ensures
        decimal_value(p.push(c)) == decimal_value(p) * 10 + digit_value(c),
{
    assert(p.push(c).drop_last() =~= p);
    assert(p.push(c).last() == c);
}

proof fn lemma_decimal_value_nonneg(s: Seq<char>)
    requires
        all_decimal_digits(s),
    ensures
        decimal_value(s) >= 0,
    decreases s.len(),
{
    if s.len() > 0 {
        assert(all_decimal_digits(s.drop_last()));
        lemma_decimal_value_nonneg(s.drop_last());
        assert(decimal_value(s.drop_last()) * 10 >= 0) by (nonlinear_arith)
            requires
                decimal_value(s.drop_last()) >= 0,
        ;
    }
}

/// Appending digits never shrinks the denoted value.
proof fn lemma_decimal_prefix_le(s: Seq<char>, k: int)
    requires
        all_decimal_digits(s),
        0 <= k <= s.len(),
    ensures
        decimal_value(s.subrange(0, k)) <= decimal_value(s),
    decreases s.len() - k,
{
    if k == s.len() {
        assert(s.subrange(0, k) =~= s);
    } else {
        let p = s.subrange(0, k);
        let q = s.subrange(0, k + 1);
        assert(q =~= p.push(s[k]));
        lemma_decimal_value_snoc(p, s[k]);
        assert(all_decimal_digits(p));
        lemma_decimal_value_nonneg(p);
        assert(decimal_value(p) * 10 + digit_value(s[k]) >= decimal_value(p)) by (nonlinear_arith)
            requires
                decimal_value(p) >= 0,
                digit_value(s[k]) >= 0,
        ;
        lemma_decimal_prefix_le(s, k + 1);
    }
}

/// A value with its text form: what the components of a parsed pair must
/// offer.
pub trait FromDecimalStr: Sized {
    /// The value the string denotes, if it denotes one.
    spec fn from_decimal_spec(s: Seq<char>) -> Option<Self>;

    /// Parses the string, exactly as `from_decimal_spec` reads it.
    fn from_decimal(s: &str) -> (r: Option<Self>)
        ensures
            r == Self::from_decimal_spec(s@),
    ;
}

impl FromDecimalStr for u64 {
    open spec fn from_decimal_spec(s: Seq<char>) -> Option<u64> {
        u64_from_decimal(s)
    }

    fn from_decimal(s: &str) -> (r: Option<u64>) {
        let len = s.unicode_len();
        if len == 0 {
            return None;
        }
        let start: usize = if s.get_char(0) == '+' {
            1
        } else {
            0
        };
        proof {
            assert(decimal_digits(s@) =~= s@.subrange(start as int, len as int));
        }
        if start == len {
            return None;
        }
        let ghost digits = decimal_digits(s@);
        let mut acc: u64 = 0;
        let mut i: usize = start;
        while i < len
            invariant
                start <= i <= len,
                len == s@.len(),
                1 <= len,
                start <= 1,
                digits == decimal_digits(s@),
                digits =~= s@.subrange(start as int, len as int),
                all_decimal_digits(digits.subrange(0, i - start)),
                acc == decimal_value(digits.subrange(0, i - start)),
            decreases len - i,
        {
            let c = s.get_char(i);
            let code = c as u32;
            let ghost prefix = digits.subrange(0, i - start);
            let ghost extended = digits.subrange(0, i + 1 - start);
            proof {
                assert(digits[i - start] == s@[i as int]);
                assert(extended =~= prefix.push(s@[i as int]));
                lemma_decimal_value_snoc(prefix, s@[i as int]);
            }
            if code < 48 || code > 57 {
                // a non-digit anywhere in the digit part rejects the string
                proof {
                    assert(!is_decimal_digit(digits[i - start]));
                }
                return None;
            }
            let d = (code - 48) as u64;
            proof {
                lemma_fundamental_div_mod(u64::MAX - d, 10);
                lemma_mod_division_less_than_divisor(u64::MAX - d, 10);
            }
            if acc > (u64::MAX - d) / 10 {
                // the digits seen already denote more than the type holds
                proof {
                    assert(acc * 10 + d > u64::MAX) by (nonlinear_arith)
                        requires
                            acc > (u64::MAX - d) / 10,
                            u64::MAX - d == 10 * ((u64::MAX - d) / 10) + (u64::MAX - d) % 10,
                            0 <= (u64::MAX - d) % 10 < 10,
                            0 <= d <= 9,
                    ;
                    assert(decimal_value(extended) > u64::MAX);
                    if all_decimal_digits(digits) {
                        lemma_decimal_prefix_le(digits, i + 1 - start);
                    }
                }
                return None;
            }
            proof {
                assert(acc * 10 + d <= u64::MAX) by (nonlinear_arith)
                    requires
                        acc <= (u64::MAX - d) / 10,
                        u64::MAX - d == 10 * ((u64::MAX - d) / 10) + (u64::MAX - d) % 10,
                        0 <= (u64::MAX - d) % 10 < 10,
                        0 <= d <= 9,
                        acc >= 0,
                ;
            }
            acc = acc * 10 + d;
            i = i + 1;
        }
        proof {
            assert(digits.subrange(0, len - start) =~= digits);
        }
        Some(acc)
    }
}

impl FromDecimalStr for usize {
    open spec fn from_decimal_spec(s: Seq<char>) -> Option<usize> {
        usize_from_decimal(s)
    }

    fn from_decimal(s: &str) -> (r: Option<usize>) {
        match u64::from_decimal(s) {
            None => {
                proof {
                    assert(usize::MAX <= u64::MAX);
                    let d = decimal_digits(s@);
                    if d.len() >= 1 && all_decimal_digits(d) {
                        assert(decimal_value(d) > u64::MAX);
                    }
                }
                None
            },
            Some(v) => {
                proof {
                    assert(usize::MAX <= u64::MAX);
                    assert((usize::MAX as u64) as int == usize::MAX as int);
                    let d = decimal_digits(s@);
                    lemma_decimal_value_nonneg(d);
                }
                if v <= usize::MAX as u64 {
                    Some(v as usize)
                } else {
                    None
                }
            },
        }
    }
}

/// A double-precision value carried as its IEEE-754 bit pattern, the
/// component type of a parsed complex point.
#[derive(Clone, Copy, PartialEq, Eq, Structural, Debug)]
pub struct FloatBits {
    pub bits: u64,
}

pub uninterp spec fn float_from_decimal(s: Seq<char>) -> Option<u64>;

/// Relies on the standard library's double-precision `FromStr`: whether the
/// string parses and the value's bit pattern depend on the characters
/// alone.
#[verifier::external_body]
fn parse_float_bits(s: &str) -> (r: Option<u64>)
    ensures
        r == float_from_decimal(s@),
{
    match s.parse() {
        Err(_) => None,
        Ok(v) => {
            let p: num::complex::Complex64 = num::Complex { re: v, im: v };
            Some(p.re.to_bits())
        },
    }
}

impl FromDecimalStr for FloatBits {
    open spec fn from_decimal_spec(s: Seq<char>) -> Option<FloatBits> {
        match float_from_decimal(s) {
            None => None,
            Some(bits) => Some(FloatBits { bits }),
        }
    }

    fn from_decimal(s: &str) -> (r: Option<FloatBits>) {
        match parse_float_bits(s) {
            None => None,
            Some(bits) => Some(FloatBits { bits }),
        }
    }
}

/// The position of the first occurrence of `separator` at or after `i`.
pub open spec fn find_from(s: Seq<char>, separator: char, i: int) -> Option<int>
    decreases s.len() - i,
{
    if i < 0 || i >= s.len() {
        None
    } else if s[i] == separator {
        Some(i)
    } else {
        find_from(s, separator, i + 1)
    }
}

/// The position of the first occurrence of `separator`, if it occurs.
pub open spec fn find_separator(s: Seq<char>, separator: char) -> Option<int> {
    find_from(s, separator, 0)
}

/// The pair a string denotes: split at the first occurrence of the
/// separator, both sides read as values.  No occurrence, or a side that
/// does not parse, denotes nothing.
pub open spec fn pair_from_decimal<T: FromDecimalStr>(s: Seq<char>, separator: char) -> Option<
    (T, T),
> {
    match find_separator(s, separator) {
        None => None,
        Some(k) => {
            match (
                T::from_decimal_spec(s.subrange(0, k)),
                T::from_decimal_spec(s.subrange(k + 1, s.len() as int)),
            ) {
                (Some(left), Some(right)) => Some((left, right)),
                _ => None,
            }
        },
    }
}

proof fn lemma_find_from_none(s: Seq<char>, separator: char, i: int)
    requires
        0 <= i <= s.len(),
        forall|k: int| i <= k < s.len() ==> s[k] != separator,
    ensures
        find_from(s, separator, i) is None,
    decreases s.len() - i,
{
    if i < s.len() {
        lemma_find_from_none(s, separator, i + 1);
    }
}

/// Splits the string at the first occurrence of the separator and parses
/// the two sides as values of `T`.  A string without the separator, or with
/// a side that does not parse, gives `None`.
pub fn parse_pair<T: FromDecimalStr>(s: &str, separator: char) -> (r: Option<(T, T)>)
    ensures
        r == pair_from_decimal::<T>(s@, separator),
        (forall|k: int| 0 <= k < s@.len() ==> s@[k] != separator) ==> r is None,
{
    proof {
        if forall|k: int| 0 <= k < s@.len() ==> s@[k] != separator {
            lemma_find_from_none(s@, separator, 0);
        }
    }
    let len = s.unicode_len();
    let mut i: usize = 0;
    while i < len
        invariant
            0 <= i <= len,
            len == s@.len(),
            find_from(s@, separator, 0) == find_from(s@, separator, i as int),
        decreases len - i,
    {
        if s.get_char(i) == separator {
            let left = s.substring_char(0, i);
            let right = s.substring_char(i + 1, len);
            let first = T::from_decimal(left);
            let second = T::from_decimal(right);
            return match (first, second) {
                (Some(a), Some(b)) => Some((a, b)),
                _ => None,
            };
        }
        i = i + 1;
    }
    None
}

/// The execution-mode flag a string denotes: `0` is sequential, `1` is
/// parallel, anything else denotes nothing.
pub open spec fn bool_from_flag(s: Seq<char>) -> Option<bool> {
    if s.len() == 1 && s[0] == '0' {
        Some(false)
    } else if s.len() == 1 && s[0] == '1' {
        Some(true)
    } else {
        None
    }
}

/// Parses the execution-mode flag.
pub fn parse_bool(s: &str) -> (r: Option<bool>)
    ensures
        r == bool_from_flag(s@),
{
    let len = s.unicode_len();
    if len != 1 {
        return None;
    }
    let c = s.get_char(0);
    if c == '0' {
        Some(false)
    } else if c == '1' {
        Some(true)
    } else {
        None
    }
}

/// The complex point a string denotes: two double-precision components
/// separated by a comma.
pub open spec fn complex_from_decimal(s: Seq<char>) -> Option<Complex> {
    match pair_from_decimal::<FloatBits>(s, COMPLEX_SEPARATOR) {
        None => None,
        Some((re, im)) => Some(Complex { re: re.bits, im: im.bits }),
    }
}

/// Parses a complex point from its `RE,IM` text form.
pub fn parse_complex(s: &str) -> (r: Option<Complex>)
    ensures
        r == complex_from_decimal(s@),
{
    match parse_pair::<FloatBits>(s, COMPLEX_SEPARATOR) {
        None => None,
        Some((re, im)) => Some(Complex { re: re.bits, im: im.bits }),
    }
}

} // verus!
