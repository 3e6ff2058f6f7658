//! Decimal digit strings: the specification of digit values, canonical
//! digit sequences and zero padding, with executable parsing and
//! formatting used by the wire-format grammar.

use vstd::prelude::*;
use vstd::string::*;

verus! {

/// Value of a decimal digit character, -1 for anything else.
pub open spec fn digit_val(c: char) -> int {
    if c == '0' {
        0
    } else if c == '1' {
        1
    } else if c == '2' {
        2
    } else if c == '3' {
        3
    } else if c == '4' {
        4
    } else if c == '5' {
        5
    } else if c == '6' {
        6
    } else if c == '7' {
        7
    } else if c == '8' {
        8
    } else if c == '9' {
        9
    } else {
        -1
    }
}

/// The character for a digit value in 0..=9.
pub open spec fn digit_char(d: int) -> char {
    if d == 0 {
        '0'
    } else if d == 1 {
        '1'
    } else if d == 2 {
        '2'
    } else if d == 3 {
        '3'
    } else if d == 4 {
        '4'
    } else if d == 5 {
        '5'
    } else if d == 6 {
        '6'
    } else if d == 7 {
        '7'
    } else if d == 8 {
        '8'
    } else {
        '9'
    }
}

pub open spec fn is_digit(c: char) -> bool {
    digit_val(c) >= 0
}

pub open spec fn all_digits(s: Seq<char>) -> bool {
    forall|i: int| 0 <= i < s.len() ==> is_digit(#[trigger] s[i])
}

/// Numeric value of a digit string, most significant digit first.
pub open spec fn digits_val(s: Seq<char>) -> int
    decreases s.len(),
{
    if s.len() == 0 {
        0
    } else {
        digits_val(s.drop_last()) * 10 + digit_val(s.last())
    }
}

/// Canonical decimal digits of `n` (no leading zeros; `n >= 0` intended).
pub open spec fn dec_digits(n: int) -> Seq<char>
    decreases n,
{
    if n < 10 {
        seq![digit_char(n)]
    } else {
        dec_digits(n / 10).push(digit_char(n % 10))
    }
}

/// `s` left-padded with zeros to at least `w` characters.
pub open spec fn zero_pad(s: Seq<char>, w: int) -> Seq<char>
    decreases w - s.len(),
{
    if s.len() >= w {
        s
    } else {
        zero_pad(seq!['0'].add(s), w)
    }
}

/// The canonical digits of `n >= 0` are digits and evaluate to `n`.
pub proof fn lemma_dec_digits(n: int)
    requires
        n >= 0,
    ensures
        all_digits(dec_digits(n)),
        digits_val(dec_digits(n)) == n,
        dec_digits(n).len() >= 1,
    decreases n,
{
    if n < 10 {
        assert(dec_digits(n) =~= seq![digit_char(n)]);
        assert(dec_digits(n).drop_last() =~= Seq::<char>::empty());
        assert(dec_digits(n).last() == digit_char(n));
        assert(digits_val(Seq::<char>::empty()) == 0);
        assert(digit_val(digit_char(n)) == n);
    } else {
        lemma_dec_digits(n / 10);
        let s = dec_digits(n);
        assert(s =~= dec_digits(n / 10).push(digit_char(n % 10)));
        assert(s.drop_last() =~= dec_digits(n / 10));
        assert(s.last() == digit_char(n % 10));
        vstd::arithmetic::div_mod::lemma_fundamental_div_mod(n, 10);
        assert forall|i: int| 0 <= i < s.len() implies is_digit(#[trigger] s[i]) by {
            if i < s.len() - 1 {
                assert(s[i] == dec_digits(n / 10)[i]);
            }
        }
    }
}

/// A leading zero does not change a digit string's value or digit-ness.
pub proof fn lemma_leading_zero(s: Seq<char>)
    ensures
        digits_val(seq!['0'].add(s)) == digits_val(s),
        all_digits(s) ==> all_digits(seq!['0'].add(s)),
    decreases s.len(),
{
    let z = seq!['0'].add(s);
    if s.len() == 0 {
        assert(z =~= seq!['0']);
        assert(z.drop_last() =~= Seq::<char>::empty());
        assert(z.last() == '0');
        assert(digits_val(Seq::<char>::empty()) == 0);
        assert(digit_val('0') == 0);
        assert(digits_val(z) == digits_val(z.drop_last()) * 10 + digit_val(z.last()));
    } else {
        assert(z.drop_last() =~= seq!['0'].add(s.drop_last()));
        assert(z.last() == s.last());
        lemma_leading_zero(s.drop_last());
        assert(digits_val(z) == digits_val(z.drop_last()) * 10 + digit_val(z.last()));
        assert(digits_val(s) == digits_val(s.drop_last()) * 10 + digit_val(s.last()));
    }
    if all_digits(s) {
        assert forall|i: int| 0 <= i < z.len() implies is_digit(#[trigger] z[i]) by {
            if i > 0 {
                assert(z[i] == s[i - 1]);
            }
        }
    }
}

/// Zero padding does not change a digit string's value or digit-ness, and
/// reaches exactly the requested width.
pub proof fn lemma_zero_pad(s: Seq<char>, w: int)
    ensures
        digits_val(zero_pad(s, w)) == digits_val(s),
        all_digits(s) ==> all_digits(zero_pad(s, w)),
        s.len() >= w ==> zero_pad(s, w) == s,
        s.len() <= w ==> zero_pad(s, w).len() == w,
    decreases w - s.len(),
{
    if s.len() < w {
        lemma_leading_zero(s);
        lemma_zero_pad(seq!['0'].add(s), w);
    }
}

/// Extending a digit string by one digit multiplies its value by ten; the
/// value of a prefix never exceeds the value of the whole (for digit
/// strings).
pub proof fn lemma_digits_val_take(s: Seq<char>, i: int)
    requires
        0 <= i < s.len(),
    ensures
        digits_val(s.take(i + 1)) == digits_val(s.take(i)) * 10 + digit_val(s[i]),
{
    assert(s.take(i + 1).drop_last() =~= s.take(i));
    assert(s.take(i + 1).last() == s[i]);
}

/// A digit string's value is at least zero and at least the value of any
/// prefix.
pub proof fn lemma_digits_val_bounds(s: Seq<char>)
    requires
        all_digits(s),
    ensures
        digits_val(s) >= 0,
        forall|i: int| 0 <= i <= s.len() ==> digits_val(#[trigger] s.take(i)) <= digits_val(s),
    decreases s.len(),
{
    if s.len() == 0 {
        assert(forall|i: int| 0 <= i <= s.len() ==> #[trigger] s.take(i) =~= s);
    } else {
        assert(all_digits(s.drop_last())) by {
            assert(forall|i: int| 0 <= i < s.len() - 1 ==> s.drop_last()[i] == #[trigger] s[i]);
        }
        lemma_digits_val_bounds(s.drop_last());
        assert(digits_val(s) == digits_val(s.drop_last()) * 10 + digit_val(s.last()));
        assert(is_digit(s.last()));
        assert forall|i: int| 0 <= i <= s.len() implies digits_val(#[trigger] s.take(i))
            <= digits_val(s) by {
            if i == s.len() {
                assert(s.take(i) =~= s);
            } else {
                assert(s.take(i) =~= s.drop_last().take(i));
            }
        }
    }
}

/// Number parsed from a component: an optional plus sign, then at least
/// one digit, with the value within `bound`; mirrors how the standard
/// unsigned parser treats a dash-free token.
pub open spec fn spec_parse_uint(s: Seq<char>, bound: int) -> Option<int> {
    let body = if s.len() >= 1 && s[0] == '+' {
        s.skip(1)
    } else {
        s
    };
    if body.len() >= 1 && all_digits(body) && digits_val(body) <= bound {
        Some(digits_val(body))
    } else {
        None
    }
}

/// Parse a dash-free component as an unsigned number bounded by `bound`.
pub fn parse_uint_part(p: &str, bound: u32) -> (r: Option<u32>)
    ensures
        r matches Some(v) ==> spec_parse_uint(p@, bound as int) == Some(v as int),
        r is None ==> spec_parse_uint(p@, bound as int) is None,
{
    let len = p.unicode_len();
    let mut i: usize = 0;
    if len > 0 && p.get_char(0) == '+' {
        i = 1;
    }
    let ghost body = if p@.len() >= 1 && p@[0] == '+' {
        p@.skip(1)
    } else {
        p@
    };
    assert(body =~= p@.subrange(i as int, len as int));
    if i >= len {
        return None;
    }
    let start = i;
    let mut acc: u32 = 0;
    let mut j = i;
    while j < len
        invariant
            start <= j <= len,
            len == p@.len(),
            start < len,
            body == (if p@.len() >= 1 && p@[0] == '+' {
                p@.skip(1)
            } else {
                p@
            }),
            body =~= p@.subrange(start as int, len as int),
            acc == digits_val(body.take(j - start)),
            all_digits(body.take(j - start)),
            acc <= bound,
        decreases len - j,
    {
        let c = p.get_char(j);
        let d: u32 = match c {
            '0' => 0,
            '1' => 1,
            '2' => 2,
            '3' => 3,
            '4' => 4,
            '5' => 5,
            '6' => 6,
            '7' => 7,
            '8' => 8,
            '9' => 9,
            _ => {
                proof {
                    assert(body[j - start] == c);
                    assert(!is_digit(body[j - start]));
                    assert(!all_digits(body));
                    assert(spec_parse_uint(p@, bound as int) is None);
                }
                return None;
            },
        };
        proof {
            assert(body[j - start] == c);
            assert(digit_val(c) == d);
            lemma_digits_val_take(body, j - start);
            assert(all_digits(body.take(j - start + 1))) by {
                assert(forall|k: int|
                    0 <= k < j - start + 1 ==> body.take(j - start + 1)[k] == #[trigger] body.take(
                        j - start,
                    ).push(c)[k]);
            }
        }
        if acc > bound / 10 || (acc == bound / 10 && d > bound % 10) {
            proof {
                vstd::arithmetic::div_mod::lemma_fundamental_div_mod(bound as int, 10);
                assert(acc * 10 + d > bound) by (nonlinear_arith)
                    requires
                        acc > bound as int / 10 || (acc == bound as int / 10 && d > bound as int
                            % 10),
                        bound == (bound as int / 10) * 10 + bound as int % 10,
                        d >= 0,
                        acc >= 0,
                ;
                if all_digits(body) {
                    lemma_digits_val_bounds(body);
                    assert(digits_val(body.take(j - start + 1)) <= digits_val(body));
                    assert(digits_val(body) > bound);
                }
                assert(spec_parse_uint(p@, bound as int) is None);
            }
            return None;
        }
        proof {
            assert(acc * 10 + d <= bound) by (nonlinear_arith)
                requires
                    acc <= bound as int / 10,
                    acc < bound as int / 10 || d <= bound as int % 10,
                    bound == (bound as int / 10) * 10 + bound as int % 10,
                    0 <= d <= 9,
                    acc >= 0,
            ;
        }
        acc = acc * 10 + d;
        j = j + 1;
    }
    proof {
        assert(body.take(j - start) =~= body);
    }
    Some(acc)
}

/// The string for one digit value.
pub fn digit_str(d: u32) -> (r: &'static str)
    requires
        d <= 9,
    ensures
        r@ =~= seq![digit_char(d as int)],
{
    proof {
        reveal_strlit("0");
        reveal_strlit("1");
        reveal_strlit("2");
        reveal_strlit("3");
        reveal_strlit("4");
        reveal_strlit("5");
        reveal_strlit("6");
        reveal_strlit("7");
        reveal_strlit("8");
        reveal_strlit("9");
    }
    match d {
        0 => "0",
        1 => "1",
        2 => "2",
        3 => "3",
        4 => "4",
        5 => "5",
        6 => "6",
        7 => "7",
        8 => "8",
        _ => "9",
    }
}

/// Append the canonical decimal digits of `n`.
pub fn push_uint(out: &mut String, n: u32)
    ensures
        final(out)@ == old(out)@ + dec_digits(n as int),
    decreases n,
{
    if n < 10 {
        out.append(digit_str(n));
    } else {
        push_uint(out, n / 10);
        out.append(digit_str(n % 10));
        proof {
            assert(final(out)@ =~= old(out)@ + dec_digits(n as int));
        }
    }
}

/// Append the decimal digits of `n` left-padded with zeros to width `w`
/// (at most 4).
pub fn push_uint_pad(out: &mut String, n: u32, w: u32)
    requires
        w <= 4,
    ensures
        final(out)@ == old(out)@ + zero_pad(dec_digits(n as int), w as int),
{
    proof {
        lemma_dec_digits(n as int);
        reveal_strlit("0");
        reveal_strlit("00");
        reveal_strlit("000");
    }
    let digits_len: u32 = if n < 10 {
        1
    } else if n < 100 {
        2
    } else if n < 1000 {
        3
    } else {
        4
    };
    proof {
        lemma_dec_digits_len(n as int);
    }
    if digits_len < w {
        let pad = w - digits_len;
        if pad == 1 {
            out.append("0");
        } else if pad == 2 {
            out.append("00");
        } else {
            out.append("000");
        }
    }
    push_uint(out, n);
    proof {
        lemma_zero_pad_exact(dec_digits(n as int), w as int);
        assert(final(out)@ =~= old(out)@ + zero_pad(dec_digits(n as int), w as int));
    }
}

/// Length of the canonical digits of small numbers.
pub proof fn lemma_dec_digits_len(n: int)
    requires
        n >= 0,
    ensures
        dec_digits(n).len() == (if n < 10 {
            1int
        } else if n < 100 {
            2int
        } else if n < 1000 {
            3int
        } else if n < 10000 {
            4int
        } else {
            dec_digits(n).len() as int
        }),
        n >= 10000 ==> dec_digits(n).len() >= 5,
    decreases n,
{
    if n >= 10 {
        lemma_dec_digits_len(n / 10);
    }
}

/// Decimal rendering of a signed number, unpadded: a minus sign for
/// negative values, then the canonical digits of the magnitude.
pub open spec fn fmt_int(v: int) -> Seq<char> {
    if v < 0 {
        seq!['-'].add(dec_digits(-v))
    } else {
        dec_digits(v)
    }
}

/// Decimal rendering of a signed number zero-padded to width `w`; the
/// sign counts toward the width, as in the standard zero-pad format.
pub open spec fn fmt_int_pad(v: int, w: int) -> Seq<char> {
    if v < 0 {
        seq!['-'].add(zero_pad(dec_digits(-v), w - 1))
    } else {
        zero_pad(dec_digits(v), w)
    }
}

/// Append the unpadded decimal rendering of `v`.
pub fn push_int(out: &mut String, v: i32)
    ensures
        final(out)@ == old(out)@ + fmt_int(v as int),
{
    proof {
        reveal_strlit("-");
    }
    if v < 0 {
        out.append("-");
        let m: u32 = if v == i32::MIN {
            2147483648u32
        } else {
            (-v) as u32
        };
        push_uint(out, m);
        proof {
            assert(final(out)@ =~= old(out)@ + fmt_int(v as int));
        }
    } else {
        push_uint(out, v as u32);
    }
}

/// Append the decimal rendering of `v` zero-padded to width `w` (at most
/// 4).
pub fn push_int_pad(out: &mut String, v: i32, w: u32)
    requires
        1 <= w <= 4,
    ensures
        final(out)@ == old(out)@ + fmt_int_pad(v as int, w as int),
{
    proof {
        reveal_strlit("-");
    }
    if v < 0 {
        out.append("-");
        let m: u32 = if v == i32::MIN {
            2147483648u32
        } else {
            (-v) as u32
        };
        push_uint_pad(out, m, w - 1);
        proof {
            assert(final(out)@ =~= old(out)@ + fmt_int_pad(v as int, w as int));
        }
    } else {
        push_uint_pad(out, v as u32, w);
    }
}

/// Padding prepends exactly the zeros the width is short of.
pub proof fn lemma_zero_pad_exact(s: Seq<char>, w: int)
    ensures
        s.len() >= w ==> zero_pad(s, w) =~= s,
        s.len() == w - 1 ==> zero_pad(s, w) =~= seq!['0'].add(s),
        s.len() == w - 2 ==> zero_pad(s, w) =~= seq!['0', '0'].add(s),
        s.len() == w - 3 ==> zero_pad(s, w) =~= seq!['0', '0', '0'].add(s),
    decreases w - s.len(),
{
    if s.len() < w {
        lemma_zero_pad_exact(seq!['0'].add(s), w);
        assert(s.len() == w - 2 ==> seq!['0'].add(seq!['0'].add(s)) =~= seq!['0', '0'].add(s));
        assert(s.len() == w - 3 ==> seq!['0'].add(seq!['0', '0'].add(s)) =~= seq![
            '0',
            '0',
            '0',
        ].add(s));
    }
}

} // verus!
