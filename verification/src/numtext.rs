//! Verified reading of decimal degree values out of comma-separated text.
//!
//! A field is an optional sign, then digits with at most one dot and at
//! least one digit, then an optional exponent (`e` or `E`, an optional
//! sign, and at least one digit), with whitespace tolerated around it.
//! Its value is held in nanodegrees: the digits beyond the nanodegree
//! place are truncated, and the magnitude is saturated to the accepted
//! degree range.

use vstd::prelude::*;

verus! {

use vstd::string::StrSliceExecFns;
use crate::mapper::MAX_DEGREE_NANO;

/// Whitespace tolerated around a field: the characters with the Unicode
/// `White_Space` property.
pub open spec fn is_space(c: char) -> bool {
    ||| (9 <= c as u32 <= 13)  // tab, line feed, vertical tab, form feed, carriage return
    ||| c == ' '
    ||| c == '\u{0085}'
    ||| c == '\u{00A0}'
    ||| c == '\u{1680}'
    ||| (0x2000 <= c as u32 <= 0x200A)
    ||| c == '\u{2028}'
    ||| c == '\u{2029}'
    ||| c == '\u{202F}'
    ||| c == '\u{205F}'
    ||| c == '\u{3000}'
}

/// A decimal digit.
pub open spec fn is_digit(c: char) -> bool {
    48 <= c as u32 <= 57
}

/// The numeric value of a digit character.
pub open spec fn digit_val(c: char) -> int {
    c as u32 - 48
}

/// An exponent marker.
pub open spec fn is_e(c: char) -> bool {
    c == 'e' || c == 'E'
}

/// The index of the first comma at or after `i`, or the length if none.
pub open spec fn next_comma(s: Seq<char>, i: int) -> int
    decreases s.len() - i,
{
    if i < 0 {
        0
    } else if i >= s.len() {
        s.len() as int
    } else if s[i] == ',' {
        i
    } else {
        next_comma(s, i + 1)
    }
}

pub proof fn lemma_next_comma_props(s: Seq<char>, i: int)
    requires
        0 <= i <= s.len(),
    ensures
        i <= next_comma(s, i) <= s.len(),
        next_comma(s, i) < s.len() ==> s[next_comma(s, i)] == ',',
    decreases s.len() - i,
{
    if i < s.len() && s[i] != ',' {
        lemma_next_comma_props(s, i + 1);
    }
}

/// Strip leading and trailing whitespace.
pub open spec fn trim(s: Seq<char>) -> Seq<char>
    decreases s.len(),
{
    if s.len() > 0 && is_space(s[0]) {
        trim(s.drop_first())
    } else if s.len() > 0 && is_space(s[s.len() - 1]) {
        trim(s.drop_last())
    } else {
        s
    }
}

/// Every character is a digit.
pub open spec fn all_digits(s: Seq<char>) -> bool {
    forall|i: int| 0 <= i < s.len() ==> is_digit(s[i])
}

/// The index of the first dot, or the length if none.
pub open spec fn dot_pos(s: Seq<char>) -> int
    decreases s.len(),
{
    if s.len() == 0 {
        0
    } else if s[0] == '.' {
        0
    } else {
        1 + dot_pos(s.drop_first())
    }
}

/// The index of the first exponent marker, or the length if none.
pub open spec fn e_pos(s: Seq<char>) -> int
    decreases s.len(),
{
    if s.len() == 0 {
        0
    } else if is_e(s[0]) {
        0
    } else {
        1 + e_pos(s.drop_first())
    }
}

/// A scan that saw no dot up to `k` and a dot there (or ran out) pins
/// `dot_pos`.
pub proof fn lemma_dot_pos_char(s: Seq<char>, k: int)
    requires
        0 <= k <= s.len(),
        forall|j: int| 0 <= j < k ==> s[j] != '.',
        k < s.len() ==> s[k] == '.',
    ensures
        dot_pos(s) == k,
    decreases s.len(),
{
    if s.len() > 0 && s[0] != '.' {
        let d = s.drop_first();
        assert forall|j: int| 0 <= j < k - 1 implies d[j] != '.' by {
            assert(d[j] == s[j + 1]);
        }
        assert(k - 1 < d.len() ==> d[k - 1] == '.');
        lemma_dot_pos_char(d, k - 1);
    }
}

/// The same characterization for the exponent marker.
pub proof fn lemma_e_pos_char(s: Seq<char>, k: int)
    requires
        0 <= k <= s.len(),
        forall|j: int| 0 <= j < k ==> !is_e(s[j]),
        k < s.len() ==> is_e(s[k]),
    ensures
        e_pos(s) == k,
    decreases s.len(),
{
    if s.len() > 0 && !is_e(s[0]) {
        let d = s.drop_first();
        assert forall|j: int| 0 <= j < k - 1 implies !is_e(d[j]) by {
            assert(d[j] == s[j + 1]);
        }
        assert(k - 1 < d.len() ==> is_e(d[k - 1]));
        lemma_e_pos_char(d, k - 1);
    }
}

/// The token after an optional leading sign.
pub open spec fn unsigned_body(t: Seq<char>) -> Seq<char> {
    if t.len() > 0 && (t[0] == '+' || t[0] == '-') {
        t.drop_first()
    } else {
        t
    }
}

/// The mantissa: everything before the exponent marker.
pub open spec fn mantissa_part(u: Seq<char>) -> Seq<char> {
    u.subrange(0, e_pos(u))
}

/// The exponent token: everything after the exponent marker.
pub open spec fn exp_suffix(u: Seq<char>) -> Seq<char> {
    if e_pos(u) < u.len() {
        u.subrange(e_pos(u) + 1, u.len() as int)
    } else {
        Seq::<char>::empty()
    }
}

/// The digits before the dot.
pub open spec fn int_part(m: Seq<char>) -> Seq<char> {
    m.subrange(0, dot_pos(m))
}

/// The digits after the dot.
pub open spec fn frac_part(m: Seq<char>) -> Seq<char> {
    if dot_pos(m) < m.len() {
        m.subrange(dot_pos(m) + 1, m.len() as int)
    } else {
        Seq::<char>::empty()
    }
}

/// The mantissa's digits with the dot taken out.
pub open spec fn digit_stream(m: Seq<char>) -> Seq<char> {
    int_part(m) + frac_part(m)
}

/// A valid exponent token: an optional sign, then at least one digit.
pub open spec fn exp_valid(x: Seq<char>) -> bool {
    let y = unsigned_body(x);
    y.len() >= 1 && all_digits(y)
}

/// A valid field: after the optional sign and surrounding whitespace, a
/// mantissa of digits with at most one dot and at least one digit, then
/// an optional exponent.
pub open spec fn num_valid(s: Seq<char>) -> bool {
    let u = unsigned_body(trim(s));
    let m = mantissa_part(u);
    &&& all_digits(int_part(m))
    &&& all_digits(frac_part(m))
    &&& int_part(m).len() + frac_part(m).len() >= 1
    &&& (e_pos(u) == u.len() || exp_valid(exp_suffix(u)))
}

/// The value of a digit string.
pub open spec fn digits_val(s: Seq<char>) -> int
    decreases s.len(),
{
    if s.len() == 0 {
        0
    } else {
        digits_val(s.drop_last()) * 10 + digit_val(s.last())
    }
}

/// The exponent's signed value; zero when there is none.
pub open spec fn exp_val(u: Seq<char>) -> int {
    let x = exp_suffix(u);
    let y = unsigned_body(x);
    if x.len() > 0 && x[0] == '-' {
        -digits_val(y)
    } else {
        digits_val(y)
    }
}

/// `10^k`.
pub open spec fn pow10(k: nat) -> int
    decreases k,
{
    if k == 0 {
        1
    } else {
        10 * pow10((k - 1) as nat)
    }
}

pub proof fn lemma_pow10_pos(k: nat)
    ensures
        pow10(k) >= 1,
    decreases k,
{
    if k > 0 {
        lemma_pow10_pos((k - 1) as nat);
    }
}

pub proof fn lemma_pow10_le(a: nat, b: nat)
    requires
        a <= b,
    ensures
        pow10(a) <= pow10(b),
    decreases b,
{
    if a < b {
        lemma_pow10_le(a, (b - 1) as nat);
        lemma_pow10_pos((b - 1) as nat);
    }
}

pub proof fn lemma_digits_val_push(s: Seq<char>, c: char)
    ensures
        digits_val(s.push(c)) == digits_val(s) * 10 + digit_val(c),
{
    assert(s.push(c).drop_last() =~= s);
    assert(s.push(c).last() == c);
}

pub proof fn lemma_digits_val_bound(s: Seq<char>)
    requires
        all_digits(s),
    ensures
        0 <= digits_val(s) < pow10(s.len()),
    decreases s.len(),
{
    if s.len() > 0 {
        assert(all_digits(s.drop_last())) by {
            assert forall|i: int| 0 <= i < s.drop_last().len() implies is_digit(
                s.drop_last()[i],
            ) by {
                assert(s.drop_last()[i] == s[i]);
            }
        }
        lemma_digits_val_bound(s.drop_last());
        assert(is_digit(s.last()));
        assert(pow10(s.len()) == 10 * pow10((s.len() - 1) as nat));
    }
}

/// A whole mantissa of at least one digit gives more than the saturation
/// bound once thirteen or more decimal places are appended.
proof fn lemma_scale_saturates(mv: int, k: nat)
    requires
        mv >= 1,
        k >= 13,
    ensures
        mv * pow10(k) > 400_000_000_000,
{
    lemma_pow10_le(13, k);
    reveal_with_fuel(pow10, 14);
    assert(mv * pow10(k) >= pow10(k)) by (nonlinear_arith)
        requires
            mv >= 1,
            pow10(k) >= 1,
    ;
}

/// Saturate to the accepted degree range.
pub open spec fn sat_nano(v: int) -> int {
    if v > MAX_DEGREE_NANO {
        MAX_DEGREE_NANO as int
    } else if v < -MAX_DEGREE_NANO {
        -(MAX_DEGREE_NANO as int)
    } else {
        v
    }
}

/// The magnitude of an unsigned token in nanodegrees: the digit stream
/// read as an integer whose last place is the nanodegree, that is, its
/// first `|int digits| + 9 + exponent` digits (zero-padded on the right
/// when the stream is shorter, truncated when it is longer).
pub open spec fn mag_nano(u: Seq<char>) -> int {
    let m = mantissa_part(u);
    let d = digit_stream(m);
    let lim = int_part(m).len() + 9 + exp_val(u);
    if lim <= 0 {
        0
    } else if lim <= d.len() {
        digits_val(d.subrange(0, lim))
    } else {
        digits_val(d) * pow10((lim - d.len()) as nat)
    }
}

/// The value a field denotes, in nanodegrees.
pub open spec fn num_value_nano(s: Seq<char>) -> int {
    let t = trim(s);
    if t.len() > 0 && t[0] == '-' {
        sat_nano(-mag_nano(unsigned_body(t)))
    } else {
        sat_nano(mag_nano(unsigned_body(t)))
    }
}

fn is_space_exec(c: char) -> (r: bool)
    ensures
        r == is_space(c),
{
    let u = c as u32;
    (9 <= u && u <= 13) || u == 0x20 || u == 0x85 || u == 0xA0 || u == 0x1680 || (0x2000 <= u
        && u <= 0x200A) || u == 0x2028 || u == 0x2029 || u == 0x202F || u == 0x205F || u == 0x3000
}

/// The index of the first comma at or after `start`, or `len` if none.
pub fn find_comma(s: &str, start: usize, len: usize) -> (r: usize)
    requires
        start <= len,
        len == s@.len(),
    ensures
        r == next_comma(s@, start as int),
        start <= r <= len,
        r < len ==> s@[r as int] == ',',
{
    proof {
        lemma_next_comma_props(s@, start as int);
    }
    let mut i = start;
    while i < len
        invariant
            start <= i <= len,
            len == s@.len(),
            next_comma(s@, start as int) == next_comma(s@, i as int),
        decreases len - i,
    {
        let c = s.get_char(i);
        if c == ',' {
            return i;
        }
        i = i + 1;
    }
    i
}

/// Read the field `s[lo..hi]` as a signed decimal number of degrees, in
/// nanodegrees, saturated to the accepted range; `None` when the field is
/// not a valid number.
#[verifier::rlimit(100)]
#[verifier::spinoff_prover]
pub fn parse_field(s: &str, lo: usize, hi: usize) -> (r: Option<i64>)
    requires
        lo <= hi,
        hi <= s@.len(),
    ensures
        r is Some <==> num_valid(s@.subrange(lo as int, hi as int)),
        r matches Some(v) ==> v as int == num_value_nano(s@.subrange(lo as int, hi as int)),
        r matches Some(v) ==> -MAX_DEGREE_NANO <= v <= MAX_DEGREE_NANO,
{
    let ghost orig = s@.subrange(lo as int, hi as int);
    // strip the surrounding whitespace
    let mut a = lo;
    let mut b = hi;
    while a < b && is_space_exec(s.get_char(a))
        invariant
            lo <= a <= b,
            b == hi,
            hi <= s@.len(),
            trim(orig) == trim(s@.subrange(a as int, b as int)),
        decreases b - a,
    {
        proof {
            let cur = s@.subrange(a as int, b as int);
            assert(cur.drop_first() =~= s@.subrange(a as int + 1, b as int));
        }
        a = a + 1;
    }
    while b > a && is_space_exec(s.get_char(b - 1))
        invariant
            lo <= a <= b <= hi,
            hi <= s@.len(),
            trim(orig) == trim(s@.subrange(a as int, b as int)),
            b > a ==> !is_space(s@[a as int]),
        decreases b - a,
    {
        proof {
            let cur = s@.subrange(a as int, b as int);
            assert(cur.drop_last() =~= s@.subrange(a as int, b as int - 1));
        }
        b = b - 1;
    }
    let ghost t = s@.subrange(a as int, b as int);
    proof {
        assert(trim(orig) == t);
    }
    // the optional sign
    let mut neg = false;
    let mut a2 = a;
    if a < b {
        let c = s.get_char(a);
        if c == '-' {
            neg = true;
            a2 = a + 1;
        } else if c == '+' {
            a2 = a + 1;
        }
    }
    let ghost u = s@.subrange(a2 as int, b as int);
    proof {
        if a2 > a {
            assert(t.drop_first() =~= u);
        }
        assert(unsigned_body(t) == u);
        assert(neg == (t.len() > 0 && t[0] == '-'));
    }
    // find the exponent marker
    let mut ei = a2;
    while ei < b && !(s.get_char(ei) == 'e' || s.get_char(ei) == 'E')
        invariant
            a2 <= ei <= b <= s@.len(),
            forall|j: int| a2 <= j < ei ==> !is_e(s@[j]),
        decreases b - ei,
    {
        ei = ei + 1;
    }
    let ghost ep = ei - a2;
    let ghost m = s@.subrange(a2 as int, ei as int);
    proof {
        assert forall|j: int| 0 <= j < ep implies !is_e(u[j]) by {
            assert(u[j] == s@[a2 + j]);
        }
        if ei < b {
            assert(is_e(u[ep]));
        }
        lemma_e_pos_char(u, ep);
        assert(u.subrange(0, ep) =~= m);
        assert(mantissa_part(u) == m);
    }
    // find the dot within the mantissa
    let mut di = a2;
    while di < ei && s.get_char(di) != '.'
        invariant
            a2 <= di <= ei,
            ei <= s@.len(),
            forall|j: int| a2 <= j < di ==> s@[j] != '.',
        decreases ei - di,
    {
        di = di + 1;
    }
    let ghost dp = di - a2;
    proof {
        assert forall|j: int| 0 <= j < dp implies m[j] != '.' by {
            assert(m[j] == s@[a2 + j]);
        }
        if di < ei {
            assert(m[dp] == '.');
        }
        lemma_dot_pos_char(m, dp);
    }
    // the digit counts are fixed by the two markers
    let mlen = ei - a2;
    let ilen = di - a2;
    let flen: usize = if di < ei {
        mlen - ilen - 1
    } else {
        0
    };
    let ll = ilen + flen;
    let ghost stream = digit_stream(m);
    proof {
        assert(int_part(m).len() == ilen);
        assert(frac_part(m).len() == flen);
        assert(stream.len() == ll);
    }
    if ll == 0 {
        return None;
    }
    // every mantissa character but the dot must be a digit
    let mut i = a2;
    while i < ei
        invariant
            a2 <= i <= ei <= b <= s@.len(),
            a2 <= di <= ei,
            forall|j: int| a2 <= j < i ==> j == di || is_digit(s@[j]),
            m == s@.subrange(a2 as int, ei as int),
            dp == di - a2,
            dot_pos(m) == dp,
            unsigned_body(trim(orig)) == u,
            mantissa_part(u) == m,
            orig == s@.subrange(lo as int, hi as int),
        decreases ei - i,
    {
        if i != di {
            let c = s.get_char(i);
            let cu = c as u32;
            if !(48 <= cu && cu <= 57) {
                proof {
                    if i < di {
                        assert(int_part(m)[i - a2] == m[i - a2]);
                        assert(m[i - a2] == s@[i as int]);
                    } else {
                        assert(dp < m.len());
                        assert(frac_part(m)[i - a2 - dp - 1] == m[i - a2]);
                        assert(m[i - a2] == s@[i as int]);
                    }
                }
                return None;
            }
        }
        i = i + 1;
    }
    // the optional exponent token: a sign, then at least one digit
    let mut eneg = false;
    let mut eval: u128 = 0;
    if ei < b {
        let mut x = ei + 1;
        let ghost xs = s@.subrange(ei as int + 1, b as int);
        proof {
            assert(exp_suffix(u) =~= xs);
        }
        if x < b {
            let c = s.get_char(x);
            if c == '-' {
                eneg = true;
                x = x + 1;
            } else if c == '+' {
                x = x + 1;
            }
        }
        let ghost y2 = s@.subrange(x as int, b as int);
        proof {
            if x > ei + 1 {
                assert(xs.drop_first() =~= y2);
            }
            assert(unsigned_body(xs) == y2);
            assert(eneg == (xs.len() > 0 && xs[0] == '-'));
        }
        if x >= b {
            // no exponent digits
            return None;
        }
        let x0 = x;
        while x < b
            invariant
                x0 <= x <= b <= s@.len(),
                y2 == s@.subrange(x0 as int, b as int),
                forall|j: int| 0 <= j < x - x0 ==> is_digit(y2[j]),
                unsigned_body(trim(orig)) == u,
                orig == s@.subrange(lo as int, hi as int),
                e_pos(u) < u.len(),
                unsigned_body(exp_suffix(u)) == y2,
                ({
                    let yv = digits_val(y2.subrange(0, x - x0));
                    ||| (yv < 0x400_0000_0000_0000_0000 && eval == yv)
                    ||| (yv >= 0x400_0000_0000_0000_0000 && 0x400_0000_0000_0000_0000 <= eval
                        < 0x4000_0000_0000_0000_0000)
                }),
        decreases b - x,
        {
            let c = s.get_char(x);
            let cu = c as u32;
            proof {
                assert(y2[x - x0] == s@[x as int]);
            }
            if !(48 <= cu && cu <= 57) {
                return None;
            }
            proof {
                assert(y2.subrange(0, x - x0 + 1) =~= y2.subrange(0, x - x0).push(y2[x - x0]));
                lemma_digits_val_push(y2.subrange(0, x - x0), y2[x - x0]);
                assert(all_digits(y2.subrange(0, x - x0))) by {
                    assert forall|j: int| 0 <= j < x - x0 implies #[trigger] is_digit(
                        y2.subrange(0, x - x0)[j],
                    ) by {
                        assert(y2.subrange(0, x - x0)[j] == y2[j]);
                    }
                }
                lemma_digits_val_bound(y2.subrange(0, x - x0));
            }
            if eval < 0x400_0000_0000_0000_0000u128 {
                eval = eval * 10 + ((cu - 48) as u128);
            }
            x = x + 1;
        }
        proof {
            assert(y2.subrange(0, b - x0) =~= y2);
        }
    } else {
        proof {
            assert(exp_suffix(u) =~= Seq::<char>::empty());
            assert(unsigned_body(Seq::<char>::empty()) == Seq::<char>::empty());
        }
    }
    // the field is valid; assemble the value
    let ghost ev = exp_val(u);
    proof {
        assert(all_digits(int_part(m))) by {
            assert forall|k: int| 0 <= k < int_part(m).len() implies is_digit(int_part(m)[k]) by {
                assert(int_part(m)[k] == m[k]);
                assert(m[k] == s@[a2 + k]);
            }
        }
        assert(all_digits(frac_part(m))) by {
            assert forall|k: int| 0 <= k < frac_part(m).len() implies is_digit(
                frac_part(m)[k],
            ) by {
                assert(frac_part(m)[k] == m[dp + 1 + k]);
                assert(m[dp + 1 + k] == s@[a2 + dp + 1 + k]);
            }
        }
        assert(num_valid(orig));
        assert(all_digits(stream)) by {
            assert forall|j: int| 0 <= j < stream.len() implies is_digit(stream[j]) by {
                if j < ilen {
                    assert(stream[j] == int_part(m)[j]);
                } else {
                    assert(stream[j] == frac_part(m)[j - ilen]);
                }
            }
        }
        // the tracked exponent magnitude matches or dominates the real one
        if eneg {
            assert(ev <= 0);
        } else {
            assert(ev >= 0);
        }
    }
    let v: i64 = field_magnitude(s, a2, di, ei, b, eneg, eval, Ghost(u), Ghost(ev));
    proof {
        assert(v as int == sat_nano(mag_nano(u)));
    }
    let r: i64 = if neg {
        -v
    } else {
        v
    };
    return Some(r);
}

/// The saturated nanodegree magnitude of a validated field body `u`
/// (`s[a2..b]`): the leading digits of the mantissa's digit stream, scaled
/// by the exponent.  `eval` is the exponent's magnitude, tracked exactly
/// below `2^70` and otherwise known to be at least `2^70`, which already
/// saturates or voids the result on its own.
#[verifier::rlimit(100)]
#[verifier::spinoff_prover]
fn field_magnitude(
    s: &str,
    a2: usize,
    di: usize,
    ei: usize,
    b: usize,
    eneg: bool,
    eval: u128,
    Ghost(u): Ghost<Seq<char>>,
    Ghost(ev): Ghost<int>,
) -> (v: i64)
    requires
        a2 <= di <= ei <= b <= s@.len(),
        u == s@.subrange(a2 as int, b as int),
        mantissa_part(u) == s@.subrange(a2 as int, ei as int),
        dot_pos(s@.subrange(a2 as int, ei as int)) == di - a2,
        forall|jj: int| a2 <= jj < ei ==> jj == di || is_digit(s@[jj]),
        ev == exp_val(u),
        eval < 0x4000_0000_0000_0000_0000,
        ({
            ||| (eval < 0x400_0000_0000_0000_0000 && ev == if eneg {
                -(eval as int)
            } else {
                eval as int
            })
            ||| (eval >= 0x400_0000_0000_0000_0000 && (if eneg {
                ev <= -0x400_0000_0000_0000_0000
            } else {
                ev >= 0x400_0000_0000_0000_0000
            }))
        }),
    ensures
        v as int == sat_nano(mag_nano(u)),
        0 <= v <= MAX_DEGREE_NANO,
{
    let ghost m = s@.subrange(a2 as int, ei as int);
    let ghost dp = di - a2;
    let ghost stream = digit_stream(m);
    let mlen = ei - a2;
    let ilen = di - a2;
    let flen: usize = if di < ei {
        mlen - ilen - 1
    } else {
        0
    };
    let ll = ilen + flen;
    proof {
        assert(int_part(m).len() == ilen);
        assert(frac_part(m).len() == flen);
        assert(stream.len() == ll);
    }
    let exact = eval < 0x400_0000_0000_0000_0000u128;
    let limit_e: i128 = if eneg {
        ilen as i128 + 9 - (eval as i128)
    } else {
        ilen as i128 + 9 + (eval as i128)
    };
    let ghost lim = ilen + 9 + ev;
    proof {
        if exact {
            assert(limit_e == lim);
        }
    }
    let v: i64;
    if limit_e <= 0 {
        proof {
            if !exact {
                // a saturated magnitude can only drive the limit this low
                // when the exponent is negative, and then the true limit
                // is lower still
                assert(eneg);
                assert(lim <= 0);
            }
        }
        v = 0;
    } else {
        // accumulate the leading digits of the stream, saturating past the
        // degree bound
        let take_all = limit_e >= ll as i128;
        let tcount: usize = if take_all {
            ll
        } else {
            limit_e as usize
        };
        proof {
            if !exact {
                assert(!eneg);
                assert(take_all);
            }
        }
        let acc: i64 = leading_digits(s, a2, di, ei, ilen, flen, tcount);
        let ghost dvt = digits_val(stream.subrange(0, tcount as int));
        if take_all {
            proof {
                assert(stream.subrange(0, ll as int) =~= stream);
            }
            if acc == 0 {
                proof {
                    assert(dvt == 0);
                    assert(0int * pow10((lim - ll) as nat) == 0) by (nonlinear_arith);
                }
                v = 0;
            } else if !exact || limit_e - (ll as i128) >= 13 {
                proof {
                    assert(dvt >= 1);
                    if exact {
                        lemma_scale_saturates(dvt, (lim - ll) as nat);
                    } else {
                        assert(ev >= 0x400_0000_0000_0000_0000);
                        assert(lim - ll >= 13);
                        lemma_scale_saturates(dvt, (lim - ll) as nat);
                    }
                }
                v = MAX_DEGREE_NANO;
            } else if acc > 400_000_000_000 {
                proof {
                    let k = (lim - ll) as nat;
                    lemma_pow10_pos(k);
                    assert(dvt * pow10(k) >= dvt) by (nonlinear_arith)
                        requires
                            dvt >= 0,
                            pow10(k) >= 1,
                    ;
                }
                v = MAX_DEGREE_NANO;
            } else {
                let sexp = (limit_e - ll as i128) as u32;
                let p = pow10_i128(sexp);
                proof {
                    lemma_pow10_pos(sexp as nat);
                    reveal_with_fuel(pow10, 14);
                    lemma_pow10_le(sexp as nat, 12);
                    assert(0 <= acc as int * pow10(sexp as nat) <= 400_000_000_000
                        * 1_000_000_000_000) by (nonlinear_arith)
                        requires
                            0 <= acc <= 400_000_000_000,
                            1 <= pow10(sexp as nat) <= 1_000_000_000_000,
                    ;
                }
                let w: i128 = (acc as i128) * p;
                v = if w > 400_000_000_000 {
                    MAX_DEGREE_NANO
                } else {
                    w as i64
                };
            }
        } else {
            // the limit falls inside the stream: the kept digits are the
            // whole magnitude
            v = if acc > 400_000_000_000 {
                MAX_DEGREE_NANO
            } else {
                acc
            };
        }
    }
    proof {
        assert(v as int == sat_nano(mag_nano(u)));
    }
    v
}

/// The value of the first `tcount` digits of the mantissa's digit stream,
/// read left to right and saturated once it passes the degree bound.
#[verifier::rlimit(50)]
fn leading_digits(s: &str, a2: usize, di: usize, ei: usize, ilen: usize, flen: usize, tcount: usize)
    -> (acc: i64)
    requires
        a2 <= di <= ei <= s@.len(),
        ilen == di - a2,
        di < ei ==> flen == ei - a2 - ilen - 1,
        di >= ei ==> flen == 0,
        tcount <= ilen + flen,
        dot_pos(s@.subrange(a2 as int, ei as int)) == di - a2,
        forall|jj: int| a2 <= jj < ei ==> jj == di || is_digit(s@[jj]),
    ensures
        0 <= acc <= 4_009_999_999_999,
        ({
            let dv = digits_val(
                digit_stream(s@.subrange(a2 as int, ei as int)).subrange(0, tcount as int),
            );
            ||| (dv <= 400_000_000_000 && acc == dv)
            ||| (dv > 400_000_000_000 && 400_000_000_000 < acc <= 4_009_999_999_999)
        }),
{
    let ghost m = s@.subrange(a2 as int, ei as int);
    let ghost stream = digit_stream(m);
    let ghost dp = di - a2;
    let ll = ilen + flen;
    proof {
        assert(int_part(m).len() == ilen);
        assert(frac_part(m).len() == flen);
        assert(stream.len() == ll);
    }
    let mut acc: i64 = 0;
    let mut j: usize = 0;
    while j < tcount
        invariant
            j <= tcount <= ll,
            ll == ilen + flen,
            a2 <= di <= ei <= s@.len(),
            dp == di - a2,
            ilen == di - a2,
            di < ei ==> flen == ei - a2 - ilen - 1,
            di >= ei ==> flen == 0,
            m == s@.subrange(a2 as int, ei as int),
            dot_pos(m) == dp,
            stream == digit_stream(m),
            stream.len() == ll,
            forall|jj: int| a2 <= jj < ei ==> jj == di || is_digit(s@[jj]),
            0 <= acc <= 4_009_999_999_999,
            ({
                let dv = digits_val(stream.subrange(0, j as int));
                ||| (dv <= 400_000_000_000 && acc == dv)
                ||| (dv > 400_000_000_000 && 400_000_000_000 < acc <= 4_009_999_999_999)
            }),
        decreases tcount - j,
    {
        let cj: usize = if j < ilen {
            a2 + j
        } else {
            a2 + j + 1
        };
        proof {
            if j < ilen {
                assert(stream[j as int] == int_part(m)[j as int]);
                assert(int_part(m)[j as int] == m[j as int]);
                assert(m[j as int] == s@[cj as int]);
            } else {
                assert(stream[j as int] == frac_part(m)[j - ilen]);
                assert(frac_part(m)[j - ilen] == m[j + 1]);
                assert(m[j + 1] == s@[cj as int]);
            }
            assert(is_digit(stream[j as int]));
        }
        let c = s.get_char(cj);
        let d = ((c as u32) - 48) as i64;
        proof {
            assert(stream.subrange(0, j + 1) =~= stream.subrange(0, j as int).push(
                stream[j as int],
            ));
            lemma_digits_val_push(stream.subrange(0, j as int), stream[j as int]);
        }
        if acc <= 400_000_000_000 {
            acc = acc * 10 + d;
        }
        j = j + 1;
    }
    acc
}

/// `10^k` as an `i128`.
fn pow10_i128(k: u32) -> (r: i128)
    requires
        k <= 12,
    ensures
        r == pow10(k as nat),
        1 <= r,
{
    proof {
        reveal_with_fuel(pow10, 14);
    }
    let mut r: i128 = 1;
    let mut i: u32 = 0;
    while i < k
        invariant
            i <= k <= 12,
            r == pow10(i as nat),
            1 <= r,
        decreases k - i,
    {
        proof {
            reveal_with_fuel(pow10, 14);
            lemma_pow10_le((i + 1) as nat, 12);
        }
        r = r * 10;
        i = i + 1;
    }
    r
}

} // verus!
