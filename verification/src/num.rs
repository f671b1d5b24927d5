//! Decimal rendering and parsing for the integer tag of the value model.
//!
//! Rendering follows `i32`'s decimal notation; parsing follows the
//! standard library's base-10 integer syntax (an optional sign followed
//! by at least one digit, the signed value within `i32`'s range).
use vstd::prelude::*;

verus! {

pub open spec fn digit_char(d: int) -> char {
    if d == 0 {
        '0'
    } else if d == 1 {
        '1'
    } else if d == 2 {
        '2'
    } else if d == 3 {
        '3'
    } else if d == 4 {
        '4'
    } else if d == 5 {
        '5'
    } else if d == 6 {
        '6'
    } else if d == 7 {
        '7'
    } else if d == 8 {
        '8'
    } else {
        '9'
    }
}

pub open spec fn is_digit_char(c: char) -> bool {
    c == '0' || c == '1' || c == '2' || c == '3' || c == '4' || c == '5' || c == '6' || c == '7'
        || c == '8' || c == '9'
}

pub open spec fn digit_val(c: char) -> int {
    if c == '0' {
        0
    } else if c == '1' {
        1
    } else if c == '2' {
        2
    } else if c == '3' {
        3
    } else if c == '4' {
        4
    } else if c == '5' {
        5
    } else if c == '6' {
        6
    } else if c == '7' {
        7
    } else if c == '8' {
        8
    } else {
        9
    }
}

/// The decimal digits of a non-negative number, most significant first.
pub open spec fn dec_digits(n: int) -> Seq<char>
    decreases n,
{
    if n < 10 {
        seq![digit_char(n)]
    } else {
        dec_digits(n / 10).push(digit_char(n % 10))
    }
}

/// The decimal rendering of a (possibly negative) integer.
pub open spec fn dec_render(i: int) -> Seq<char> {
    if i < 0 {
        seq!['-'] + dec_digits(-i)
    } else {
        dec_digits(i)
    }
}

pub open spec fn all_digit_chars(s: Seq<char>) -> bool {
    forall|i: int| 0 <= i < s.len() ==> is_digit_char(#[trigger] s[i])
}

/// The value of a digit string, most significant first.
pub open spec fn digits_val(s: Seq<char>) -> int
    decreases s.len(),
{
    if s.len() == 0 {
        0
    } else {
        digits_val(s.drop_last()) * 10 + digit_val(s.last())
    }
}

/// The digit part of a numeral: everything after an optional leading sign.
pub open spec fn numeral_body(s: Seq<char>) -> Seq<char> {
    if s.len() > 0 && (s[0] == '+' || s[0] == '-') {
        s.drop_first()
    } else {
        s
    }
}

pub open spec fn numeral_negative(s: Seq<char>) -> bool {
    s.len() > 0 && s[0] == '-'
}

/// The signed value a numeral denotes, before any range check.
pub open spec fn numeral_val(s: Seq<char>) -> int {
    if numeral_negative(s) {
        -digits_val(numeral_body(s))
    } else {
        digits_val(numeral_body(s))
    }
}

/// Whether `s` parses as an `i32`: sign, at least one digit, in range.
pub open spec fn parses_as_i32(s: Seq<char>) -> bool {
    numeral_body(s).len() > 0 && all_digit_chars(numeral_body(s)) && i32::MIN <= numeral_val(s)
        <= i32::MAX
}

/// The parsed value, with the silent default of zero on any failure.
pub open spec fn parse_i32_or_zero(s: Seq<char>) -> int {
    if parses_as_i32(s) {
        numeral_val(s)
    } else {
        0
    }
}

// ---------------------------------------------------------------------------
// Facts about rendering
// ---------------------------------------------------------------------------

pub proof fn lemma_dec_digits_shape(n: int)
    requires
        n >= 0,
    ensures
        dec_digits(n).len() >= 1,
        all_digit_chars(dec_digits(n)),
    decreases n,
{
    if n < 10 {
    } else {
        lemma_dec_digits_shape(n / 10);
        assert(dec_digits(n) == dec_digits(n / 10).push(digit_char(n % 10)));
        assert forall|i: int| 0 <= i < dec_digits(n).len() implies is_digit_char(
            #[trigger] dec_digits(n)[i],
        ) by {
            if i < dec_digits(n / 10).len() {
                assert(dec_digits(n)[i] == dec_digits(n / 10)[i]);
            }
        }
    }
}

pub proof fn lemma_digits_val_of_dec_digits(n: int)
    requires
        n >= 0,
    ensures
        digits_val(dec_digits(n)) == n,
    decreases n,
{
    if n < 10 {
        let d = seq![digit_char(n)];
        assert(dec_digits(n) == d);
        assert(d.len() == 1);
        assert(d.drop_last() =~= Seq::<char>::empty());
        assert(digits_val(Seq::<char>::empty()) == 0);
        assert(d.last() == digit_char(n));
        assert(digits_val(d) == digits_val(d.drop_last()) * 10 + digit_val(d.last()));
        assert(digit_val(digit_char(n)) == n);
    } else {
        lemma_digits_val_of_dec_digits(n / 10);
        let d = dec_digits(n / 10).push(digit_char(n % 10));
        assert(dec_digits(n) == d);
        assert(d.drop_last() =~= dec_digits(n / 10));
        assert(d.last() == digit_char(n % 10));
        assert(0 <= n % 10 < 10);
        assert(digit_val(digit_char(n % 10)) == n % 10);
        assert(digits_val(d) == digits_val(d.drop_last()) * 10 + digit_val(d.last()));
        assert(digits_val(d) == (n / 10) * 10 + (n % 10));
        assert(n == 10 * (n / 10) + n % 10);
    }
}

/// Rendering then parsing an `i32` value returns the value.
pub proof fn lemma_parse_of_render(i: int)
    requires
        i32::MIN <= i <= i32::MAX,
    ensures
        parses_as_i32(dec_render(i)),
        numeral_val(dec_render(i)) == i,
        parse_i32_or_zero(dec_render(i)) == i,
{
    if i < 0 {
        let s = seq!['-'] + dec_digits(-i);
        lemma_dec_digits_shape(-i);
        assert(s[0] == '-');
        assert(s.drop_first() =~= dec_digits(-i));
        lemma_digits_val_of_dec_digits(-i);
    } else {
        let s = dec_digits(i);
        lemma_dec_digits_shape(i);
        assert(!(s[0] == '+' || s[0] == '-'));
        assert(numeral_body(s) == s);
        lemma_digits_val_of_dec_digits(i);
    }
}

// ---------------------------------------------------------------------------
// Exec: rendering
// ---------------------------------------------------------------------------

fn digit_str(d: u32) -> (r: &'static str)
    requires
        d < 10,
    ensures
        r@ == seq![digit_char(d as int)],
{
    proof {
        reveal_strlit("0");
        reveal_strlit("1");
        reveal_strlit("2");
        reveal_strlit("3");
        reveal_strlit("4");
        reveal_strlit("5");
        reveal_strlit("6");
        reveal_strlit("7");
        reveal_strlit("8");
        reveal_strlit("9");
    }
    let r = if d == 0 {
        "0"
    } else if d == 1 {
        "1"
    } else if d == 2 {
        "2"
    } else if d == 3 {
        "3"
    } else if d == 4 {
        "4"
    } else if d == 5 {
        "5"
    } else if d == 6 {
        "6"
    } else if d == 7 {
        "7"
    } else if d == 8 {
        "8"
    } else {
        "9"
    };
    proof {
        assert(r@ =~= seq![digit_char(d as int)]);
    }
    r
}

fn push_decimal(n: u32, out: &mut String)
    ensures
        final(out)@ == old(out)@ + dec_digits(n as int),
    decreases n,
{
    if n < 10 {
        out.append(digit_str(n));
    } else {
        push_decimal(n / 10, out);
        out.append(digit_str(n % 10));
        proof {
            assert(old(out)@ + dec_digits((n / 10) as int) + seq![digit_char((n % 10) as int)]
                =~= old(out)@ + dec_digits(n as int));
        }
    }
}

/// Render an `i32` in decimal, as its standard notation does.
pub fn render_i32(i: i32) -> (r: String)
    ensures
        r@ == dec_render(i as int),
{
    let mut out = String::new();
    if i < 0 {
        out.append("-");
        proof {
            reveal_strlit("-");
            assert(Seq::<char>::empty() + "-"@ =~= seq!['-']);
        }
        let m: u32 = (-(i as i64)) as u32;
        proof {
            assert(m as int == -(i as int));
        }
        push_decimal(m, &mut out);
        proof {
            assert(seq!['-'] + dec_digits(m as int) =~= dec_render(i as int));
        }
    } else {
        let m: u32 = i as u32;
        push_decimal(m, &mut out);
        proof {
            assert(Seq::<char>::empty() + dec_digits(m as int) =~= dec_render(i as int));
        }
    }
    out
}

// ---------------------------------------------------------------------------
// Exec: parsing
// ---------------------------------------------------------------------------

fn digit_of(c: char) -> (r: Option<u32>)
    ensures
        r is Some <==> is_digit_char(c),
        r is Some ==> r->0 == digit_val(c) && r->0 < 10,
{
    match c {
        '0' => Some(0),
        '1' => Some(1),
        '2' => Some(2),
        '3' => Some(3),
        '4' => Some(4),
        '5' => Some(5),
        '6' => Some(6),
        '7' => Some(7),
        '8' => Some(8),
        '9' => Some(9),
        _ => None,
    }
}

/// Parse a base-10 `i32`, returning zero on any malformed or out-of-range
/// input: the format's deliberate silent-default policy.
pub fn parse_i32_or_default(s: &str) -> (r: i32)
    ensures
        r as int == parse_i32_or_zero(s@),
{
    let slen = s.unicode_len();
    let mut pos: usize = 0;
    let mut negative = false;
    if slen > 0 {
        let c0 = s.get_char(0);
        if c0 == '+' || c0 == '-' {
            pos = 1;
            negative = c0 == '-';
        }
    }
    let ghost body = numeral_body(s@);
    proof {
        assert(body =~= s@.skip(pos as int));
        assert(negative == numeral_negative(s@));
    }
    if pos == slen {
        // No digits at all.
        return 0;
    }
    let mut acc: u64 = 0;
    let mut i: usize = pos;
    while i < slen
        invariant
            slen == s@.len(),
            pos < slen,
            pos <= i <= slen,
            body == numeral_body(s@),
            negative == numeral_negative(s@),
            body == s@.skip(pos as int),
            all_digit_chars(body.take(i - pos)),
            digits_val(body.take(i - pos)) <= u32::MAX ==> acc == digits_val(
                body.take(i - pos),
            ),
            digits_val(body.take(i - pos)) > u32::MAX ==> acc > u32::MAX,
            acc <= 0xFFFF_FFFF_Fu64,
        decreases slen - i,
    {
        let c = s.get_char(i);
        match digit_of(c) {
            Some(d) => {
                proof {
                    let pre = body.take(i - pos);
                    let ext = body.take(i + 1 - pos);
                    assert(ext.drop_last() =~= pre);
                    assert(ext.last() == body[i - pos]);
                    assert(body[i - pos] == s@[i as int]);
                    assert(digits_val(ext) == digits_val(pre) * 10 + d);
                    assert(digits_val(pre) >= 0) by {
                        lemma_digits_val_nonneg(pre);
                    }
                    assert forall|j: int| 0 <= j < ext.len() implies is_digit_char(
                        #[trigger] ext[j],
                    ) by {
                        if j < pre.len() {
                            assert(ext[j] == pre[j]);
                        }
                    }
                }
                if acc <= 0xFFFF_FFFFu64 {
                    acc = acc * 10 + (d as u64);
                } else {
                    // Already past any representable magnitude; the digits
                    // that remain can only keep it out of range.
                    proof {
                        let pre = body.take(i - pos);
                        let ext = body.take(i + 1 - pos);
                        assert(digits_val(pre) > u32::MAX);
                        assert(digits_val(pre) * 10 + d > u32::MAX) by (nonlinear_arith)
                            requires
                                digits_val(pre) > u32::MAX,
                                d >= 0,
                        ;
                    }
                }
            },
            None => {
                proof {
                    assert(body[i - pos] == s@[i as int]);
                    assert(!is_digit_char(body[i - pos]));
                    assert(!all_digit_chars(body));
                }
                return 0;
            },
        }
        i += 1;
    }
    proof {
        assert(body.take(slen - pos) =~= body);
    }
    if negative {
        if acc > 0x8000_0000u64 {
            proof {
                assert(!parses_as_i32(s@));
            }
            return 0;
        }
        let r: i32 = (-(acc as i64)) as i32;
        proof {
            assert(digits_val(body) == acc);
            assert(parses_as_i32(s@));
        }
        r
    } else {
        if acc > 0x7FFF_FFFFu64 {
            proof {
                assert(!parses_as_i32(s@));
            }
            return 0;
        }
        let r: i32 = acc as i32;
        proof {
            assert(digits_val(body) == acc);
            assert(parses_as_i32(s@));
        }
        r
    }
}

proof fn lemma_digits_val_nonneg(s: Seq<char>)
    ensures
        digits_val(s) >= 0,
    decreases s.len(),
{
    if s.len() == 0 {
    } else {
        lemma_digits_val_nonneg(s.drop_last());
        assert(digits_val(s.drop_last()) * 10 >= 0) by (nonlinear_arith)
            requires
                digits_val(s.drop_last()) >= 0,
        ;
    }
}

} // verus!
