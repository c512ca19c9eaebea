//! Integer literals: the 32-bit integer that a text denotes.
use vstd::prelude::*;
use crate::lexer::{is_ascii_digit, is_digit};

verus! {

/// Every character of `s` is a decimal digit.
pub open spec fn all_digits(s: Seq<char>) -> bool {
    forall|i: int| 0 <= i < s.len() ==> is_digit(#[trigger] s[i])
}

/// The number that the digit `c` stands for.
pub open spec fn digit_value(c: char) -> int {
    c as int - '0' as int
}

/// The number that the digits `s` denote in base ten; 0 for no digits.
pub open spec fn digits_value(s: Seq<char>) -> int
    decreases s.len(),
{
    if s.len() == 0 {
        0
    } else {
        digits_value(s.drop_last()) * 10 + digit_value(s.last())
    }
}

/// `s` begins with a sign.
pub open spec fn has_sign(s: Seq<char>) -> bool {
    s.len() > 0 && (s[0] == '+' || s[0] == '-')
}

/// `s` without its sign, if it has one.
pub open spec fn unsigned_part(s: Seq<char>) -> Seq<char> {
    if has_sign(s) {
        s.subrange(1, s.len() as int)
    } else {
        s
    }
}

/// The integer that `s` denotes: an optional sign and at least one digit,
/// with a value that fits in 32 bits. Any other text denotes none.
pub open spec fn parse_i32(s: Seq<char>) -> Option<i32> {
    let digits = unsigned_part(s);
    let value = if has_sign(s) && s[0] == '-' {
        -digits_value(digits)
    } else {
        digits_value(digits)
    };
    if digits.len() > 0 && all_digits(digits) && i32::MIN <= value <= i32::MAX {
        Some(value as i32)
    } else {
        None
    }
}

/// Digits denote no negative number.
pub proof fn lemma_digits_value_nonnegative(s: Seq<char>)
    requires
        all_digits(s),
    ensures
        digits_value(s) >= 0,
    decreases s.len(),
{
    if s.len() > 0 {
        lemma_digits_value_nonnegative(s.drop_last());
    }
}

/// The first `k` of some digits denote no more than all of them.
pub proof fn lemma_digits_value_prefix(s: Seq<char>, k: int)
    requires
        all_digits(s),
        0 <= k <= s.len(),
    ensures
        digits_value(s.take(k)) <= digits_value(s),
    decreases s.len() - k,
{
    if k < s.len() {
        lemma_digits_value_prefix(s.drop_last(), k);
        lemma_digits_value_nonnegative(s.drop_last());
        assert(s.drop_last().take(k) =~= s.take(k));
    } else {
        assert(s.take(k) =~= s);
    }
}

/// Reads `text` as a 32-bit integer in base ten.
pub fn parse_int(text: &str) -> (value: Option<i32>)
    ensures
        value == parse_i32(text@),
{
    broadcast use vstd::string::group_string_axioms;

    let ghost s = text@;
    let mut first = true;
    let mut signed = false;
    let mut negative = false;
    let mut any = false;
    let mut magnitude: i64 = 0;
    for c in it: text.chars()
        invariant
            it.seq() == s,
            s == text@,
            first <==> it.index() == 0,
            signed <==> it.index() > 0 && has_sign(s),
            negative <==> signed && s[0] == '-',
            any <==> it.index() > (if signed { 1int } else { 0int }),
            !first ==> (signed <==> has_sign(s)),
            all_digits(s.subrange(if signed { 1int } else { 0int }, it.index())),
            magnitude == digits_value(s.subrange(if signed { 1int } else { 0int }, it.index())),
            0 <= magnitude <= 0x8000_0000,
    {
        let ghost k = it.index();
        let ghost off = if signed { 1int } else { 0int };
        assert(c == s[k]);
        if first && (c == '+' || c == '-') {
            signed = true;
            negative = c == '-';
            assert(s.subrange(1, 1) =~= Seq::<char>::empty());
        } else if is_ascii_digit(c) {
            let digit = (c as u32 - '0' as u32) as i64;
            proof {
                let before = s.subrange(off, k);
                let now = s.subrange(off, k + 1);
                assert(now.drop_last() =~= before);
                assert(now.last() == c);
                assert(all_digits(now));
                if !has_sign(s) {
                    assert(unsigned_part(s) == s);
                }
            }
            magnitude = magnitude * 10 + digit;
            if magnitude > 0x8000_0000 {
                proof {
                    let digits = unsigned_part(s);
                    if all_digits(digits) {
                        lemma_digits_value_prefix(digits, k + 1 - off);
                        assert(digits.take(k + 1 - off) =~= s.subrange(off, k + 1));
                    }
                }
                return None;
            }
            any = true;
        } else {
            proof {
                let digits = unsigned_part(s);
                assert(digits[k - off] == c);
            }
            return None;
        }
        first = false;
    }
    proof {
        let off = if signed { 1int } else { 0int };
        assert(s.subrange(off, s.len() as int) =~= unsigned_part(s));
    }
    if !any {
        None
    } else if negative {
        Some((-magnitude) as i32)
    } else if magnitude > 0x7fff_ffff {
        None
    } else {
        Some(magnitude as i32)
    }
}

/// The quotient of `a` by `b`, rounded toward zero.
pub open spec fn quotient(a: int, b: int) -> int
    recommends
        b != 0,
{
    if a >= 0 {
        if b > 0 {
            a / b
        } else {
            -(a / (-b))
        }
    } else {
        if b > 0 {
            -((-a) / b)
        } else {
            (-a) / (-b)
        }
    }
}

/// The quotient of `a` by `b`, rounded toward zero.
pub fn divide(a: i32, b: i32) -> (q: i32)
    requires
        b != 0,
        !(a == i32::MIN && b == -1),
    ensures
        q == quotient(a as int, b as int),
{
    let x = a as i64;
    let y = b as i64;
    let size_x = if x < 0 {
        -x
    } else {
        x
    };
    let size_y = if y < 0 {
        -y
    } else {
        y
    };
    let size = size_x / size_y;
    assert(size <= size_x && (size_y >= 2 ==> 2 * size <= size_x)) by (nonlinear_arith)
        requires
            size == size_x as int / size_y as int,
            size_x >= 0,
            size_y > 0,
    ;
    if (x < 0) != (y < 0) {
        (-size) as i32
    } else {
        size as i32
    }
}

} // verus!
