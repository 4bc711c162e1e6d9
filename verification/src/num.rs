//! Small unsigned integers as they occur in attribute values: decimal fields
//! (with the optional leading `+` that Rust's integer parsing accepts) and the
//! hexadecimal groups of IPv6 literals, each with a verified parser, a
//! verified formatter, and the lemmas that make the two inverse.

use vstd::prelude::*;

use crate::errors::ParseError;

verus! {

pub open spec fn is_digit(c: char) -> bool {
    48 <= c as int <= 57
}

pub open spec fn digit_val(c: char) -> nat {
    (c as int - 48) as nat
}

/// A non-empty run of decimal digits.
pub open spec fn is_digits(s: Seq<char>) -> bool {
    s.len() > 0 && forall|i: int| 0 <= i < s.len() ==> is_digit(#[trigger] s[i])
}

/// The value of a run of decimal digits, most significant first.
pub open spec fn uint_val(s: Seq<char>) -> nat
    decreases s.len(),
{
    if s.len() == 0 {
        0
    } else {
        uint_val(s.drop_last()) * 10 + digit_val(s.last())
    }
}

/// The digits of a decimal field, with one optional leading `+` removed.
pub open spec fn strip_plus(s: Seq<char>) -> Seq<char> {
    if s.len() > 0 && s[0] == '+' {
        s.skip(1)
    } else {
        s
    }
}

/// Whether `s` is a decimal field: digits, at least one, after an optional
/// leading `+`.  This is the set of strings Rust's unsigned parsing accepts,
/// up to range.
pub open spec fn is_uint_str(s: Seq<char>) -> bool {
    is_digits(strip_plus(s))
}

/// The value of a decimal field.
pub open spec fn uint_str_val(s: Seq<char>) -> nat {
    uint_val(strip_plus(s))
}

pub open spec fn pow10(k: nat) -> nat
    decreases k,
{
    if k == 0 {
        1
    } else {
        10 * pow10((k - 1) as nat)
    }
}

pub proof fn lemma_pow10_pos(k: nat)
    ensures
        pow10(k) >= 1,
    decreases k,
{
    if k > 0 {
        lemma_pow10_pos((k - 1) as nat);
    }
}

/// The value of concatenated digit runs: the left run shifted by the length
/// of the right run, plus the right run.
pub proof fn lemma_uint_val_concat(a: Seq<char>, b: Seq<char>)
    ensures
        uint_val(a + b) == uint_val(a) * pow10(b.len()) + uint_val(b),
    decreases b.len(),
{
    if b.len() == 0 {
        assert(a + b =~= a);
        assert(pow10(0) == 1);
        assert(uint_val(a) * 1 == uint_val(a));
    } else {
        lemma_uint_val_concat(a, b.drop_last());
        assert((a + b).drop_last() =~= a + b.drop_last());
        assert((a + b).last() == b.last());
        let x = uint_val(a);
        let y = uint_val(b.drop_last());
        let z = digit_val(b.last());
        let p = pow10((b.len() - 1) as nat);
        assert(b.drop_last().len() == (b.len() - 1) as nat);
        assert(uint_val(a + b.drop_last()) == x * p + y);
        assert(pow10(b.len()) == 10 * p);
        assert(uint_val(a + b) == uint_val((a + b).drop_last()) * 10 + digit_val((a + b).last()));
        assert(uint_val(a + b) == (x * p + y) * 10 + z);
        assert((x * p + y) * 10 + z == x * (10 * p) + (y * 10 + z)) by (nonlinear_arith);
        assert(uint_val(b) == y * 10 + z);
        assert(uint_val(a + b) == x * pow10(b.len()) + uint_val(b));
    }
}

/// Parse a decimal field as a 64-bit unsigned integer.  Succeeds exactly on
/// decimal fields whose value fits; anything else is a numeric-format error
/// carrying the input.
pub fn parse_u64(s: &str) -> (r: Result<u64, ParseError>)
    ensures
        match r {
            Ok(n) => is_uint_str(s@) && uint_str_val(s@) <= u64::MAX && n == uint_str_val(s@),
            Err(e) => {
                &&& !(is_uint_str(s@) && uint_str_val(s@) <= u64::MAX)
                &&& e matches ParseError::Numeric { input }
                &&& input@ == s@
            },
        },
{
    let n = s.unicode_len();
    let start: usize = if n > 0 && s.get_char(0) == '+' {
        1
    } else {
        0
    };
    let ghost d = strip_plus(s@);
    proof {
        assert(d =~= s@.skip(start as int));
    }
    if start == n {
        return Err(ParseError::Numeric { input: s.to_owned() });
    }
    let mut acc: u128 = 0;
    let mut i: usize = start;
    while i < n
        invariant
            n == s@.len(),
            start <= i <= n,
            start < n,
            d == strip_plus(s@),
            d == s@.skip(start as int),
            d.len() == n - start,
            forall|j: int| 0 <= j < i - start ==> is_digit(#[trigger] d[j]),
            acc == uint_val(d.take(i - start)),
            acc <= u64::MAX,
        decreases n - i,
    {
        let c = s.get_char(i);
        let cv = c as u32;
        if cv < 48 || cv > 57 {
            proof {
                assert(d[i - start] == s@[i as int]);
                assert(!is_digit(d[i - start]));
            }
            return Err(ParseError::Numeric { input: s.to_owned() });
        }
        let dv: u128 = (cv - 48) as u128;
        proof {
            assert(d.take(i - start + 1).drop_last() =~= d.take(i - start));
            assert(d.take(i - start + 1).last() == s@[i as int]);
        }
        acc = acc * 10 + dv;
        i += 1;
        if acc > u64::MAX as u128 {
            proof {
                let pre = d.take(i - start);
                let rest = d.skip(i - start);
                assert(d =~= pre + rest);
                lemma_uint_val_concat(pre, rest);
                lemma_pow10_pos(rest.len());
                assert(uint_val(pre) * pow10(rest.len()) >= uint_val(pre)) by (nonlinear_arith)
                    requires
                        pow10(rest.len()) >= 1,
                ;
                assert(uint_val(d) > u64::MAX);
            }
            return Err(ParseError::Numeric { input: s.to_owned() });
        }
    }
    proof {
        assert(d.take(n - start) =~= d);
        assert(is_digits(d));
    }
    Ok(acc as u64)
}

/// Parse a decimal field as an 8-bit unsigned integer.
pub fn parse_u8(s: &str) -> (r: Result<u8, ParseError>)
    ensures
        match r {
            Ok(n) => is_uint_str(s@) && uint_str_val(s@) <= u8::MAX && n == uint_str_val(s@),
            Err(e) => {
                &&& !(is_uint_str(s@) && uint_str_val(s@) <= u8::MAX)
                &&& e matches ParseError::Numeric { input }
                &&& input@ == s@
            },
        },
{
    match parse_u64(s) {
        Ok(v) => if v <= u8::MAX as u64 {
            Ok(v as u8)
        } else {
            Err(ParseError::Numeric { input: s.to_owned() })
        },
        Err(e) => Err(e),
    }
}

/// Parse a decimal field as a 16-bit unsigned integer.
pub fn parse_u16(s: &str) -> (r: Result<u16, ParseError>)
    ensures
        match r {
            Ok(n) => is_uint_str(s@) && uint_str_val(s@) <= u16::MAX && n == uint_str_val(s@),
            Err(e) => {
                &&& !(is_uint_str(s@) && uint_str_val(s@) <= u16::MAX)
                &&& e matches ParseError::Numeric { input }
                &&& input@ == s@
            },
        },
{
    match parse_u64(s) {
        Ok(v) => if v <= u16::MAX as u64 {
            Ok(v as u16)
        } else {
            Err(ParseError::Numeric { input: s.to_owned() })
        },
        Err(e) => Err(e),
    }
}

/// Parse a decimal field as a 32-bit unsigned integer.
pub fn parse_u32(s: &str) -> (r: Result<u32, ParseError>)
    ensures
        match r {
            Ok(n) => is_uint_str(s@) && uint_str_val(s@) <= u32::MAX && n == uint_str_val(s@),
            Err(e) => {
                &&& !(is_uint_str(s@) && uint_str_val(s@) <= u32::MAX)
                &&& e matches ParseError::Numeric { input }
                &&& input@ == s@
            },
        },
{
    match parse_u64(s) {
        Ok(v) => if v <= u32::MAX as u64 {
            Ok(v as u32)
        } else {
            Err(ParseError::Numeric { input: s.to_owned() })
        },
        Err(e) => Err(e),
    }
}

/// The character for one digit value below sixteen: `0` to `9`, then the
/// lowercase `a` to `f`.
pub open spec fn digit_char(d: nat) -> char {
    if d < 10 {
        ((d + 48) as u8) as char
    } else {
        ((d + 87) as u8) as char
    }
}

/// The shortest decimal spelling of `n`: no leading zero except for zero
/// itself, no sign.
pub open spec fn dec_string(n: nat) -> Seq<char>
    decreases n,
{
    if n < 10 {
        seq![digit_char(n)]
    } else {
        dec_string(n / 10).push(digit_char(n % 10))
    }
}

/// The decimal spelling re-parses to the same value.
pub proof fn lemma_dec_string_val(n: nat)
    ensures
        is_digits(dec_string(n)),
        uint_val(dec_string(n)) == n,
    decreases n,
{
    if n < 10 {
        let s = dec_string(n);
        assert(s == seq![digit_char(n)]);
        assert(s.len() == 1);
        assert(s.drop_last() =~= Seq::<char>::empty());
        assert(uint_val(s.drop_last()) == 0);
        assert(s.last() == digit_char(n));
        assert(digit_val(digit_char(n)) == n);
        assert(uint_val(s) == uint_val(s.drop_last()) * 10 + digit_val(s.last()));
    } else {
        lemma_dec_string_val(n / 10);
        assert(dec_string(n).drop_last() =~= dec_string(n / 10));
        assert(dec_string(n).last() == digit_char(n % 10));
        assert(forall|i: int| 0 <= i < dec_string(n).len() ==> is_digit(
            #[trigger] dec_string(n)[i],
        ));
    }
}

/// The decimal spelling is never empty, and starts with a nonzero digit for
/// any nonzero value.
pub proof fn lemma_dec_string_first(n: nat)
    ensures
        dec_string(n).len() >= 1,
        n >= 1 ==> dec_string(n)[0] != '0',
    decreases n,
{
    if n >= 10 {
        lemma_dec_string_first(n / 10);
        assert(dec_string(n)[0] == dec_string(n / 10)[0]);
    }
}

/// A value below `pow10(k)` has a decimal spelling of at most `k` digits.
pub proof fn lemma_dec_string_len(n: nat, k: nat)
    requires
        k >= 1,
        n < pow10(k),
    ensures
        dec_string(n).len() <= k,
    decreases n,
{
    if n >= 10 {
        assert(pow10(k) == 10 * pow10((k - 1) as nat));
        lemma_dec_string_len(n / 10, (k - 1) as nat);
    }
}

/// The character for one digit value, in executable form.
pub fn digit_to_str(d: u8) -> (r: &'static str)
    requires
        d < 16,
    ensures
        r@ == seq![digit_char(d as nat)],
{
    let r: &'static str = match d {
        0 => "0",
        1 => "1",
        2 => "2",
        3 => "3",
        4 => "4",
        5 => "5",
        6 => "6",
        7 => "7",
        8 => "8",
        9 => "9",
        10 => "a",
        11 => "b",
        12 => "c",
        13 => "d",
        14 => "e",
        _ => "f",
    };
    proof {
        reveal_strlit("0");
        reveal_strlit("1");
        reveal_strlit("2");
        reveal_strlit("3");
        reveal_strlit("4");
        reveal_strlit("5");
        reveal_strlit("6");
        reveal_strlit("7");
        reveal_strlit("8");
        reveal_strlit("9");
        reveal_strlit("a");
        reveal_strlit("b");
        reveal_strlit("c");
        reveal_strlit("d");
        reveal_strlit("e");
        reveal_strlit("f");
        assert(r@ =~= seq![digit_char(d as nat)]);
    }
    r
}

/// Write `n` in decimal, as the decimal spelling describes it.
pub fn u64_to_dec(n: u64) -> (r: String)
    ensures
        r@ == dec_string(n as nat),
    decreases n,
{
    if n < 10 {
        digit_to_str(n as u8).to_owned()
    } else {
        let mut s = u64_to_dec(n / 10);
        s.append(digit_to_str((n % 10) as u8));
        proof {
            assert(s@ =~= dec_string((n / 10) as nat).push(digit_char((n % 10) as nat)));
        }
        s
    }
}

pub open spec fn is_hex_digit(c: char) -> bool {
    48 <= c as int <= 57 || 97 <= c as int <= 102 || 65 <= c as int <= 70
}

pub open spec fn hex_digit_val(c: char) -> nat {
    if 48 <= c as int <= 57 {
        (c as int - 48) as nat
    } else if 97 <= c as int {
        (c as int - 87) as nat
    } else {
        (c as int - 55) as nat
    }
}

/// A group of an IPv6 literal: one to four hexadecimal digits, either case.
pub open spec fn is_hex_group(s: Seq<char>) -> bool {
    1 <= s.len() <= 4 && forall|i: int| 0 <= i < s.len() ==> is_hex_digit(#[trigger] s[i])
}

/// The value of a run of hexadecimal digits, most significant first.
pub open spec fn hex_val(s: Seq<char>) -> nat
    decreases s.len(),
{
    if s.len() == 0 {
        0
    } else {
        hex_val(s.drop_last()) * 16 + hex_digit_val(s.last())
    }
}

/// Parse one IPv6 group.  `None` exactly when the text is not a group of one
/// to four hexadecimal digits.
pub fn parse_hex_group(s: &str) -> (r: Option<u16>)
    ensures
        match r {
            Some(v) => is_hex_group(s@) && v == hex_val(s@),
            None => !is_hex_group(s@),
        },
{
    let n = s.unicode_len();
    if n == 0 || n > 4 {
        return None;
    }
    let mut acc: u32 = 0;
    let mut i: usize = 0;
    while i < n
        invariant
            n == s@.len(),
            1 <= n <= 4,
            i <= n,
            forall|j: int| 0 <= j < i ==> is_hex_digit(#[trigger] s@[j]),
            acc == hex_val(s@.take(i as int)),
            i == 0 ==> acc == 0,
            i == 1 ==> acc <= 0xf,
            i == 2 ==> acc <= 0xff,
            i == 3 ==> acc <= 0xfff,
            i == 4 ==> acc <= 0xffff,
        decreases n - i,
    {
        let c = s.get_char(i);
        let cv = c as u32;
        let dv: u32 = if 48 <= cv && cv <= 57 {
            cv - 48
        } else if 97 <= cv && cv <= 102 {
            cv - 87
        } else if 65 <= cv && cv <= 70 {
            cv - 55
        } else {
            proof {
                assert(!is_hex_digit(s@[i as int]));
            }
            return None;
        };
        proof {
            assert(s@.take(i + 1).drop_last() =~= s@.take(i as int));
            assert(s@.take(i + 1).last() == s@[i as int]);
        }
        acc = acc * 16 + dv;
        i += 1;
    }
    proof {
        assert(s@.take(n as int) =~= s@);
        assert(is_hex_group(s@));
    }
    Some(acc as u16)
}

/// The shortest lowercase hexadecimal spelling of `n`.
pub open spec fn hex_string(n: nat) -> Seq<char>
    decreases n,
{
    if n < 16 {
        seq![digit_char(n)]
    } else {
        hex_string(n / 16).push(digit_char(n % 16))
    }
}

/// The hexadecimal spelling of a 16-bit value is a valid IPv6 group and
/// re-parses to the same value.
pub proof fn lemma_hex_string_val(n: nat)
    requires
        n <= 0xffff,
    ensures
        is_hex_group(hex_string(n)),
        hex_val(hex_string(n)) == n,
    decreases n,
{
    if n < 16 {
        let s = hex_string(n);
        assert(s == seq![digit_char(n)]);
        assert(s.drop_last() =~= Seq::<char>::empty());
        assert(hex_val(s.drop_last()) == 0);
        assert(s.last() == digit_char(n));
        assert(hex_digit_val(digit_char(n)) == n);
        assert(hex_val(s) == hex_val(s.drop_last()) * 16 + hex_digit_val(s.last()));
    } else {
        lemma_hex_string_val(n / 16);
        assert(hex_string(n).drop_last() =~= hex_string(n / 16));
        assert(hex_string(n).last() == digit_char(n % 16));
        assert(hex_string(n / 16).len() <= 3) by {
            if n / 16 >= 16 {
                assert(hex_string(n / 16).drop_last() =~= hex_string(n / 256));
                if n / 256 >= 16 {
                    assert(hex_string(n / 256).drop_last() =~= hex_string(n / 4096));
                    assert(n / 4096 < 16);
                }
            }
        }
        assert(forall|i: int| 0 <= i < hex_string(n).len() ==> is_hex_digit(
            #[trigger] hex_string(n)[i],
        ));
    }
}

/// Write `n` in lowercase hexadecimal, as the hexadecimal spelling describes
/// it.
pub fn u16_to_hex(n: u16) -> (r: String)
    ensures
        r@ == hex_string(n as nat),
    decreases n,
{
    if n < 16 {
        digit_to_str(n as u8).to_owned()
    } else {
        let mut s = u16_to_hex(n / 16);
        s.append(digit_to_str((n % 16) as u8));
        proof {
            assert(s@ =~= hex_string((n / 16) as nat).push(digit_char((n % 16) as nat)));
        }
        s
    }
}

} // verus!
