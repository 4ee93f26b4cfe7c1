//! Decimal text: reading a decimal numeral as thousandths, and rendering
//! thousandths back to canonical text.  Confidence values travel as decimal
//! text (a model writes `0.85`), and the library parses them itself.

use vstd::prelude::*;

use crate::text::{string_bytes, sub_bytes};

verus! {

pub open spec fn is_digit(b: u8) -> bool {
    48 <= b <= 57
}

pub open spec fn spec_all_digits(s: Seq<u8>) -> bool {
    forall|i: int| 0 <= i < s.len() ==> is_digit(#[trigger] s[i])
}

/// The value of a digit string, most significant first.
pub open spec fn spec_int_val(s: Seq<u8>) -> int
    decreases s.len(),
{
    if s.len() == 0 {
        0
    } else {
        spec_int_val(s.drop_last()) * 10 + (s.last() - 48)
    }
}

/// The index of the first dot, or the length when there is none.
pub open spec fn dot_index(s: Seq<u8>) -> int
    decreases s.len(),
{
    if s.len() == 0 {
        0
    } else if s[0] == 46 {
        0
    } else {
        1 + dot_index(s.drop_first())
    }
}

/// The thousandths encoded by the fraction digits: the first three count,
/// shorter fractions scale up.
pub open spec fn spec_frac_millis(f: Seq<u8>) -> int {
    if f.len() == 0 {
        0
    } else if f.len() == 1 {
        spec_int_val(f) * 100
    } else if f.len() == 2 {
        spec_int_val(f) * 10
    } else {
        spec_int_val(f.take(3))
    }
}

/// The numeral body after an optional sign.
pub open spec fn spec_num_body(s: Seq<u8>) -> Seq<u8> {
    if s.len() > 0 && (s[0] == 45 || s[0] == 43) {
        s.drop_first()
    } else {
        s
    }
}

/// What a decimal numeral means in thousandths: an optional sign, digits,
/// and an optional dot with fraction digits; anything else is no numeral.
pub open spec fn spec_parse_millis(s: Seq<u8>) -> Option<int> {
    let body = spec_num_body(s);
    let neg = s.len() > 0 && s[0] == 45;
    let d = dot_index(body);
    let int_part = body.take(d);
    let frac_part = if d >= body.len() {
        Seq::<u8>::empty()
    } else {
        body.skip(d + 1)
    };
    if spec_all_digits(int_part) && spec_all_digits(frac_part) && (int_part.len() > 0
        || frac_part.len() > 0) {
        let v = spec_int_val(int_part) * 1000 + spec_frac_millis(frac_part);
        Some(
            if neg {
                -v
            } else {
                v
            },
        )
    } else {
        None
    }
}

/// The digit count of the integer part.
pub open spec fn int_digits_len(s: Seq<u8>) -> int {
    dot_index(spec_num_body(s))
}

/// Scanning up to the first dot pins down `dot_index`.
proof fn lemma_dot_index(s: Seq<u8>, i: int)
    requires
        0 <= i <= s.len(),
        forall|j: int| 0 <= j < i ==> s[j] != 46,
        i == s.len() || s[i] == 46,
    ensures
        dot_index(s) == i,
    decreases i,
{
    if i == 0 {
    } else {
        lemma_dot_index(s.drop_first(), i - 1);
    }
}

/// Powers of ten, for digit-count bounds.
pub open spec fn spec_pow10(n: nat) -> nat
    decreases n,
{
    if n == 0 {
        1
    } else {
        10 * spec_pow10((n - 1) as nat)
    }
}

proof fn lemma_pow10_12()
    ensures
        spec_pow10(12) == 1000000000000,
{
    reveal_with_fuel(spec_pow10, 13);
}

/// A digit string's value is below ten to its length.
proof fn lemma_int_val_bound(s: Seq<u8>)
    requires
        spec_all_digits(s),
    ensures
        0 <= spec_int_val(s) < spec_pow10(s.len()),
    decreases s.len(),
{
    if s.len() > 0 {
        lemma_int_val_bound(s.drop_last());
    }
}

/// Whether every byte is a decimal digit.
pub fn all_digits(v: &[u8]) -> (r: bool)
    ensures
        r == spec_all_digits(v@),
{
    let n = v.len();
    let mut i: usize = 0;
    while i < n
        invariant
            i <= n,
            n == v@.len(),
            forall|j: int| 0 <= j < i ==> is_digit(#[trigger] v@[j]),
        decreases n - i,
    {
        if v[i] < 48 || v[i] > 57 {
            return false;
        }
        i += 1;
    }
    true
}

/// The value of a digit string of at most twelve digits.
pub fn int_value(v: &[u8]) -> (r: i64)
    requires
        spec_all_digits(v@),
        v@.len() <= 12,
    ensures
        r == spec_int_val(v@),
        0 <= r < 1000000000000,
{
    let n = v.len();
    let mut r: i64 = 0;
    let mut i: usize = 0;
    proof {
        assert(v@.take(0) =~= Seq::<u8>::empty());
        lemma_pow10_12();
        lemma_pow10_mono(0, 12);
    }
    while i < n
        invariant
            i <= n,
            n == v@.len() <= 12,
            spec_all_digits(v@),
            r == spec_int_val(v@.take(i as int)),
            0 <= r < spec_pow10(i as nat),
            spec_pow10(i as nat) <= spec_pow10(12),
            spec_pow10(12) == 1000000000000,
        decreases n - i,
    {
        proof {
            lemma_pow10_12();
            lemma_pow10_mono((i + 1) as nat, 12);
            assert(v@.take(i + 1 as int).drop_last() =~= v@.take(i as int));
            assert(v@.take(i + 1 as int).last() == v@[i as int]);
        }
        r = r * 10 + ((v[i] - 48) as i64);
        i += 1;
    }
    proof {
        lemma_pow10_12();
        assert(v@.take(n as int) =~= v@);
        lemma_int_val_bound(v@);
        lemma_pow10_mono(n as nat, 12);
    }
    r
}

proof fn lemma_pow10_mono(a: nat, b: nat)
    requires
        a <= b,
    ensures
        spec_pow10(a) <= spec_pow10(b),
    decreases b,
{
    if a < b {
        lemma_pow10_mono(a, (b - 1) as nat);
    }
}

/// Read a decimal numeral as thousandths.  Exact when the integer part has
/// at most twelve digits; longer numerals saturate with the sign kept.
pub fn parse_decimal_millis(s: &[u8]) -> (r: Option<i64>)
    ensures
        r is Some <==> spec_parse_millis(s@) is Some,
        r matches Some(v) ==> spec_parse_millis(s@) matches Some(m) && (int_digits_len(s@) <= 12
            ==> v == m),
        r matches Some(v) ==> (int_digits_len(s@) > 12 ==> v == (if s@.len() > 0 && s@[0] == 45 {
            i64::MIN
        } else {
            i64::MAX
        })),
{
    let n = s.len();
    let mut start: usize = 0;
    let mut neg = false;
    if n > 0 && (s[0] == 45 || s[0] == 43) {
        neg = s[0] == 45;
        start = 1;
    }
    let body = sub_bytes(s, start, n);
    proof {
        assert(body@ =~= spec_num_body(s@));
    }
    let bn = body.len();

    // Find the first dot.
    let mut d: usize = 0;
    while d < bn && body[d] != 46
        invariant
            d <= bn,
            bn == body@.len(),
            forall|j: int| 0 <= j < d ==> body@[j] != 46,
        decreases bn - d,
    {
        d += 1;
    }
    proof {
        lemma_dot_index(body@, d as int);
    }

    let int_part = sub_bytes(body.as_slice(), 0, d);
    let frac_part = if d >= bn {
        Vec::<u8>::new()
    } else {
        sub_bytes(body.as_slice(), d + 1, bn)
    };
    proof {
        assert(int_part@ =~= body@.take(d as int));
        if d < bn {
            assert(frac_part@ =~= body@.skip(d + 1 as int));
        } else {
            assert(frac_part@ =~= Seq::<u8>::empty());
        }
    }

    if !all_digits(int_part.as_slice()) || !all_digits(frac_part.as_slice()) {
        return None;
    }
    if int_part.len() == 0 && frac_part.len() == 0 {
        return None;
    }

    // Fraction value from the first three digits.
    let f3 = if frac_part.len() > 3 {
        sub_bytes(frac_part.as_slice(), 0, 3)
    } else {
        sub_bytes(frac_part.as_slice(), 0, frac_part.len())
    };
    proof {
        if frac_part@.len() > 3 {
            assert(f3@ =~= frac_part@.take(3));
        } else {
            assert(f3@ =~= frac_part@);
        }
    }
    let fv = int_value(f3.as_slice());
    let scaled_frac: i64 = if frac_part.len() == 0 {
        0
    } else if frac_part.len() == 1 {
        fv * 100
    } else if frac_part.len() == 2 {
        fv * 10
    } else {
        fv
    };
    proof {
        assert(scaled_frac == spec_frac_millis(frac_part@));
    }

    if int_part.len() > 12 {
        // The value is astronomically large; saturate, keeping the sign.
        if neg {
            return Some(i64::MIN);
        }
        return Some(i64::MAX);
    }
    let iv = int_value(int_part.as_slice());
    let v: i64 = iv * 1000 + scaled_frac;
    if neg {
        Some(-v)
    } else {
        Some(v)
    }
}

// ── Rendering ──────────────────────────────────────────────────────────────

/// The decimal digits of a number, most significant first.
pub open spec fn spec_u64_dec(n: nat) -> Seq<u8>
    decreases n,
{
    if n < 10 {
        seq![(48 + n) as u8]
    } else {
        spec_u64_dec(n / 10).push((48 + n % 10) as u8)
    }
}

/// Every rendered digit is an ASCII digit.
proof fn lemma_u64_dec_ascii(n: nat)
    ensures
        forall|i: int| 0 <= i < spec_u64_dec(n).len() ==> is_digit(#[trigger] spec_u64_dec(n)[i]),
    decreases n,
{
    if n < 10 {
        assert(spec_u64_dec(n) =~= seq![(48 + n) as u8]);
        assert(is_digit(spec_u64_dec(n)[0]));
    } else {
        lemma_u64_dec_ascii(n / 10);
        assert forall|i: int| 0 <= i < spec_u64_dec(n).len() implies is_digit(
            #[trigger] spec_u64_dec(n)[i],
        ) by {
            if i < spec_u64_dec(n).len() - 1 {
                assert(spec_u64_dec(n)[i] == spec_u64_dec(n / 10)[i]);
            } else {
                assert(spec_u64_dec(n)[i] == (48 + n % 10) as u8);
            }
        }
    }
}

/// The decimal digits of a number, as bytes.
pub fn u64_to_dec(n: u64) -> (r: Vec<u8>)
    ensures
        r@ == spec_u64_dec(n as nat),
    decreases n,
{
    if n < 10 {
        let mut r: Vec<u8> = Vec::new();
        r.push(48 + n as u8);
        proof {
            assert(r@ =~= spec_u64_dec(n as nat));
        }
        r
    } else {
        let mut r = u64_to_dec(n / 10);
        r.push(48 + (n % 10) as u8);
        r
    }
}

/// The decimal text of a number.
pub fn u64_to_string(n: u64) -> (r: String)
    ensures
        string_bytes(&r) == spec_u64_dec(n as nat),
{
    let d = u64_to_dec(n);
    proof {
        lemma_u64_dec_ascii(n as nat);
        crate::text::lemma_ascii_valid(d@);
    }
    crate::text::bytes_to_string_lossy(d.as_slice())
}

/// The canonical text of a confidence in thousandths: one integer digit, a
/// dot, and three fraction digits.
pub open spec fn spec_render_conf(c: int) -> Seq<u8> {
    let d0 = c / 1000;
    let rem = c % 1000;
    let f1 = rem / 100;
    let rem2 = rem % 100;
    let f2 = rem2 / 10;
    let f3 = rem2 % 10;
    seq![(48 + d0) as u8, 46u8, (48 + f1) as u8, (48 + f2) as u8, (48 + f3) as u8]
}

/// Render a confidence as its canonical decimal text.
pub fn render_confidence(c: u32) -> (r: String)
    requires
        c <= 1000,
    ensures
        string_bytes(&r) == spec_render_conf(c as int),
{
    let d0 = c / 1000;
    let rem = c % 1000;
    let f1 = rem / 100;
    let rem2 = rem % 100;
    let f2 = rem2 / 10;
    let f3 = rem2 % 10;
    let mut out: Vec<u8> = Vec::new();
    out.push(48 + d0 as u8);
    out.push(46);
    out.push(48 + f1 as u8);
    out.push(48 + f2 as u8);
    out.push(48 + f3 as u8);
    proof {
        assert(out@ =~= spec_render_conf(c as int));
        lemma_render_ascii(c as int);
        crate::text::lemma_ascii_valid(out@);
    }
    let r = crate::text::bytes_to_string_lossy(out.as_slice());
    r
}

/// The rendered bytes are ASCII digits and a dot.
proof fn lemma_render_ascii(c: int)
    requires
        0 <= c <= 1000,
    ensures
        forall|i: int|
            0 <= i < spec_render_conf(c).len() ==> (#[trigger] spec_render_conf(c)[i]) < 128,
{
}

/// Reading the canonical confidence text back gives the confidence.
pub proof fn lemma_parse_render_roundtrip(c: int)
    requires
        0 <= c <= 1000,
    ensures
        spec_parse_millis(spec_render_conf(c)) == Some(c),
{
    reveal_with_fuel(spec_int_val, 5);
    let s = spec_render_conf(c);
    let d0 = c / 1000;
    let rem = c % 1000;
    let f1 = rem / 100;
    let rem2 = rem % 100;
    let f2 = rem2 / 10;
    let f3 = rem2 % 10;
    assert(s[0] == (48 + d0) as u8);
    assert(s[0] != 45 && s[0] != 43);
    assert(spec_num_body(s) == s);
    lemma_dot_index(s, 1);
    let int_part = s.take(1);
    let frac_part = s.skip(2);
    assert(int_part =~= seq![(48 + d0) as u8]);
    assert(frac_part =~= seq![(48 + f1) as u8, (48 + f2) as u8, (48 + f3) as u8]);
    assert(spec_all_digits(int_part));
    assert(spec_all_digits(frac_part));
    assert(spec_int_val(int_part) == d0) by {
        assert(int_part.drop_last() =~= Seq::<u8>::empty());
    }
    assert(spec_int_val(frac_part) == f1 * 100 + f2 * 10 + f3) by {
        let two = frac_part.drop_last();
        let one = two.drop_last();
        assert(one.drop_last() =~= Seq::<u8>::empty());
        assert(one =~= seq![(48 + f1) as u8]);
        assert(two =~= seq![(48 + f1) as u8, (48 + f2) as u8]);
    }
    assert(spec_frac_millis(frac_part) == f1 * 100 + f2 * 10 + f3) by {
        assert(frac_part.take(3) =~= frac_part);
    }
    assert(rem == f1 * 100 + rem2);
    assert(rem2 == f2 * 10 + f3);
    assert(c == d0 * 1000 + rem);
}

} // verus!
