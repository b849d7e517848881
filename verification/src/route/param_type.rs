//! Named parameter types: each associates a type name with a validation
//! predicate over one path component. The built-ins are `string` (accepts
//! anything), `int` (a signed 64-bit decimal integer, optional leading `-`,
//! no leading `+`) and `uuid` (whatever the UUID parser accepts).
use vstd::prelude::*;

verus! {

/// The validation predicate a parameter type applies to a path component.
#[derive(Clone, Copy, Debug, PartialEq, Eq, Structural)]
pub enum Checker {
    /// Accepts every component.
    Any,
    /// Accepts signed 64-bit decimal integers.
    Int,
    /// Accepts anything the UUID parser accepts.
    Uuid,
}

/// A named validator for parameter values.
#[derive(Clone, Debug, PartialEq)]
pub struct ParamType {
    pub typename: String,
    pub check: Checker,
}

/// The mathematical image of a [`ParamType`]: its name as a character
/// sequence, with its checker.
pub struct SpecParamType {
    pub typename: Seq<char>,
    pub check: Checker,
}

impl View for ParamType {
    type V = SpecParamType;

    open spec fn view(&self) -> SpecParamType {
        SpecParamType { typename: self.typename@, check: self.check }
    }
}

pub open spec fn is_digit_char(c: char) -> bool {
    '0' <= c && c <= '9'
}

pub open spec fn digit_val(c: char) -> nat {
    (c as int - '0' as int) as nat
}

pub open spec fn all_digits(s: Seq<char>) -> bool {
    s.len() > 0 && forall|i: int| 0 <= i < s.len() ==> is_digit_char(#[trigger] s[i])
}

/// The numeric value of a sequence of decimal digits.
pub open spec fn digits_val(s: Seq<char>) -> nat
    decreases s.len(),
{
    if s.len() == 0 {
        0
    } else {
        digits_val(s.drop_last()) * 10 + digit_val(s.last())
    }
}

/// Whether `s` is the decimal notation of a signed 64-bit integer: an
/// optional leading `-` followed by at least one digit, with the value in
/// range. A leading `+` is not accepted.
pub open spec fn is_i64_chars(s: Seq<char>) -> bool {
    if s.len() > 0 && s[0] == '-' {
        all_digits(s.skip(1)) && digits_val(s.skip(1)) <= 0x8000000000000000
    } else {
        all_digits(s) && digits_val(s) <= 0x7fffffffffffffff
    }
}

/// The set of strings the UUID parser accepts. A canonical statement would
/// restate that parser; the name stands for its result, which depends on the
/// input alone.
pub uninterp spec fn uuid_accepts(s: Seq<char>) -> bool;

/// What a checker accepts, position by position.
pub open spec fn checker_accepts(c: Checker, s: Seq<char>) -> bool {
    match c {
        Checker::Any => true,
        Checker::Int => is_i64_chars(s),
        Checker::Uuid => uuid_accepts(s),
    }
}

/// The validation predicate of the `string` type: every component passes.
pub fn check_str(_s: &str) -> (r: bool)
    ensures
        r == checker_accepts(Checker::Any, _s@),
{
    true
}

/// Relies on `uuid::Uuid::try_parse`, which parses the simple, hyphenated,
/// URN and braced notations; its result depends on the input characters
/// alone.
#[verifier::external_body]
pub fn check_uuid(s: &str) -> (r: bool)
    ensures
        r == uuid_accepts(s@),
{
    uuid::Uuid::try_parse(s).is_ok()
}

proof fn lemma_digits_val_snoc(t: Seq<char>, c: char)
    ensures
        digits_val(t.push(c)) == digits_val(t) * 10 + digit_val(c),
{
    assert(t.push(c).drop_last() =~= t);
    assert(t.push(c).last() == c);
}

proof fn lemma_digits_prefix_le(u: Seq<char>, k: int)
    requires
        0 <= k <= u.len(),
    ensures
        digits_val(u.take(k)) <= digits_val(u),
    decreases u.len() - k,
{
    if k == u.len() {
        assert(u.take(k) =~= u);
    } else {
        lemma_digits_prefix_le(u, k + 1);
        assert(u.take(k + 1).drop_last() =~= u.take(k));
        assert(digits_val(u.take(k + 1)) == digits_val(u.take(k)) * 10 + digit_val(
            u.take(k + 1).last(),
        ));
        assert(digits_val(u.take(k)) * 10 >= digits_val(u.take(k))) by (nonlinear_arith);
    }
}

/// The validation predicate of the `int` type.
pub fn check_int(s: &str) -> (r: bool)
    ensures
        r == checker_accepts(Checker::Int, s@),
{
    let n = s.unicode_len();
    if n == 0 {
        return false;
    }
    let neg = s.get_char(0) == '-';
    let start: usize = if neg {
        1
    } else {
        0
    };
    if n == start {
        return false;
    }
    let limit: u64 = if neg {
        9223372036854775808
    } else {
        9223372036854775807
    };
    let ghost digits = s@.skip(start as int);
    proof {
        if start == 0 {
            assert(digits =~= s@);
        }
        assert(digits.take(0) =~= Seq::<char>::empty());
    }
    let mut acc: u64 = 0;
    let mut i: usize = start;
    while i < n
        invariant
            start <= i <= n,
            n == s@.len(),
            start == 1 <==> s@[0] == '-',
            start <= 1,
            n > start,
            digits == s@.skip(start as int),
            limit == if start == 1 {
                0x8000000000000000u64
            } else {
                0x7fffffffffffffffu64
            },
            forall|j: int| 0 <= j < i - start ==> is_digit_char(#[trigger] digits[j]),
            acc == digits_val(digits.take(i - start)),
            acc <= limit,
        decreases n - i,
    {
        let c = s.get_char(i);
        proof {
            assert(digits[i - start] == s@[i as int]);
        }
        if !('0' <= c && c <= '9') {
            proof {
                assert(!all_digits(digits));
                if start == 0 {
                    assert(digits =~= s@);
                }
            }
            return false;
        }
        let d: u64 = (c as u32 - 48) as u64;
        assert(d == digit_val(c));
        if acc > (limit - d) / 10 {
            proof {
                let pre = digits.take(i - start);
                assert(pre.push(c) =~= digits.take(i + 1 - start));
                lemma_digits_val_snoc(pre, c);
                vstd::arithmetic::div_mod::lemma_fundamental_div_mod((limit - d) as int, 10);
                assert(acc * 10 + d > limit) by (nonlinear_arith)
                    requires
                        acc > ((limit - d) as int) / 10,
                        (limit - d) as int == 10 * (((limit - d) as int) / 10) + (((limit
                            - d) as int) % 10),
                        0 <= ((limit - d) as int) % 10 < 10,
                        d <= limit,
                ;
                lemma_digits_prefix_le(digits, i + 1 - start);
                if start == 0 {
                    assert(digits =~= s@);
                }
                assert(digits_val(digits) > limit);
            }
            return false;
        }
        proof {
            let pre = digits.take(i - start);
            assert(pre.push(c) =~= digits.take(i + 1 - start));
            lemma_digits_val_snoc(pre, c);
            vstd::arithmetic::div_mod::lemma_fundamental_div_mod((limit - d) as int, 10);
            assert(acc * 10 + d <= limit) by (nonlinear_arith)
                requires
                    acc <= ((limit - d) as int) / 10,
                    (limit - d) as int == 10 * (((limit - d) as int) / 10) + (((limit - d) as int)
                        % 10),
                    0 <= ((limit - d) as int) % 10 < 10,
                    d <= limit,
            ;
        }
        acc = acc * 10 + d;
        i += 1;
    }
    proof {
        assert(digits.take(n - start) =~= digits);
        if start == 0 {
            assert(digits =~= s@);
        }
        assert(all_digits(digits));
    }
    true
}

/// Runs a checker on one path component.
impl Checker {
    pub fn accepts(&self, s: &str) -> (r: bool)
        ensures
            r == checker_accepts(*self, s@),
    {
        match self {
            Checker::Any => true,
            Checker::Int => check_int(s),
            Checker::Uuid => check_uuid(s),
        }
    }
}

} // verus!
