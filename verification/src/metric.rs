//! The custom-metric channel: a benchmarked program may report one number on
//! its standard output. The captured bytes are trimmed of surrounding ASCII
//! whitespace and read with the floating-point grammar: an optional sign, a
//! significand of digits with at most one dot (`7`, `42.5`, `7.`, `.5`), and
//! an optional exponent (`e`/`E`, an optional sign, digits). The value is
//! folded into an exact decimal record. Anything else — empty output, stray
//! characters, `inf`/`nan`, digits or scales beyond `u64` — yields the zero
//! metric rather than a failure: a missing metric is not a measurement
//! error.

use vstd::prelude::*;

verus! {

/// An application-reported decimal metric, as sign, digit string read as an
/// integer, and the number of fraction digits: the value it denotes is
/// `mantissa / 10^scale`, negated when `negative` is set.
#[derive(Clone, Copy, Debug, PartialEq, Eq, Structural)]
pub struct CustomMetric {
    /// Whether the numeral carried a leading minus sign.
    pub negative: bool,
    /// The digits of the numeral with the decimal point dropped and any
    /// exponent folded in, read as one integer.
    pub mantissa: u64,
    /// How many of the mantissa's low-order digits lie behind the decimal
    /// point.
    pub scale: u64,
}

/// The metric recorded when the child reported none that could be read.
pub open spec fn zero_metric() -> CustomMetric {
    CustomMetric { negative: false, mantissa: 0, scale: 0 }
}

/// ASCII whitespace as trimmed from around the numeral: space, tab, line
/// feed, vertical tab, form feed, carriage return.
pub open spec fn is_ascii_ws(b: u8) -> bool {
    b == 32 || b == 9 || b == 10 || b == 11 || b == 12 || b == 13
}

/// ASCII decimal digit.
pub open spec fn is_ascii_digit(b: u8) -> bool {
    48 <= b && b <= 57
}

/// The bytes with leading ASCII whitespace removed.
pub open spec fn trim_front(s: Seq<u8>) -> Seq<u8>
    decreases s.len(),
{
    if s.len() > 0 && is_ascii_ws(s[0]) {
        trim_front(s.drop_first())
    } else {
        s
    }
}

/// The bytes with trailing ASCII whitespace removed.
pub open spec fn trim_back(s: Seq<u8>) -> Seq<u8>
    decreases s.len(),
{
    if s.len() > 0 && is_ascii_ws(s.last()) {
        trim_back(s.drop_last())
    } else {
        s
    }
}

/// The bytes with whitespace removed from both ends.
pub open spec fn trimmed_bytes(s: Seq<u8>) -> Seq<u8> {
    trim_back(trim_front(s))
}

/// Every byte is an ASCII digit.
pub open spec fn all_digits(s: Seq<u8>) -> bool {
    forall|i: int| 0 <= i < s.len() ==> is_ascii_digit(#[trigger] s[i])
}

/// The integer a digit string denotes, most significant digit first.
pub open spec fn digits_val(s: Seq<u8>) -> int
    decreases s.len(),
{
    if s.len() == 0 {
        0
    } else {
        digits_val(s.drop_last()) * 10 + (s.last() - 48)
    }
}

/// The index of the first `.` in the bytes, or their length if there is none.
pub open spec fn dot_index(s: Seq<u8>) -> int
    decreases s.len(),
{
    if s.len() == 0 {
        0
    } else if s[0] == 46 {
        0
    } else {
        1 + dot_index(s.drop_first())
    }
}

/// The index of the first `e` or `E` in the bytes, or their length if there
/// is none.
pub open spec fn e_index(s: Seq<u8>) -> int
    decreases s.len(),
{
    if s.len() == 0 {
        0
    } else if s[0] == 101 || s[0] == 69 {
        0
    } else {
        1 + e_index(s.drop_first())
    }
}

/// Ten to the given power.
pub open spec fn pow10(n: nat) -> int
    decreases n,
{
    if n == 0 {
        1
    } else {
        10 * pow10((n - 1) as nat)
    }
}

/// Whether a significand is well formed: digits with at most one dot, and at
/// least one digit somewhere.
pub open spec fn sig_ok(s: Seq<u8>) -> bool {
    let k = dot_index(s);
    if k == s.len() {
        s.len() >= 1 && all_digits(s)
    } else {
        s.len() >= 2 && all_digits(s.subrange(0, k)) && all_digits(
            s.subrange(k + 1, s.len() as int),
        )
    }
}

/// The digits of a well-formed significand with the decimal point dropped.
pub open spec fn sig_digits(s: Seq<u8>) -> Seq<u8> {
    let k = dot_index(s);
    if k == s.len() {
        s
    } else {
        s.subrange(0, k) + s.subrange(k + 1, s.len() as int)
    }
}

/// How many digits of a well-formed significand follow the decimal point.
pub open spec fn sig_scale(s: Seq<u8>) -> int {
    let k = dot_index(s);
    if k == s.len() {
        0
    } else {
        s.len() - k - 1
    }
}

/// The magnitude digits of an exponent part: what follows its optional sign.
pub open spec fn exp_mag_digits(s: Seq<u8>) -> Seq<u8> {
    if s.len() > 0 && (s[0] == 43 || s[0] == 45) {
        s.drop_first()
    } else {
        s
    }
}

/// Whether an exponent part is well formed: an optional sign and one or more
/// digits.
pub open spec fn exp_ok(s: Seq<u8>) -> bool {
    exp_mag_digits(s).len() >= 1 && all_digits(exp_mag_digits(s))
}

/// The signed value of a well-formed exponent part.
pub open spec fn exp_val(s: Seq<u8>) -> int {
    if s.len() > 0 && s[0] == 45 {
        -digits_val(exp_mag_digits(s))
    } else {
        digits_val(exp_mag_digits(s))
    }
}

/// The significand of an unsigned numeral: what precedes its exponent
/// marker, or all of it.
pub open spec fn body_sig(s: Seq<u8>) -> Seq<u8> {
    let e = e_index(s);
    if e == s.len() {
        s
    } else {
        s.subrange(0, e)
    }
}

/// The exponent value of an unsigned numeral: zero when it has no exponent
/// part.
pub open spec fn body_exp_val(s: Seq<u8>) -> int {
    let e = e_index(s);
    if e == s.len() {
        0
    } else {
        exp_val(s.subrange(e + 1, s.len() as int))
    }
}

/// Whether the unsigned part of a numeral is well formed: a significand,
/// optionally followed by an exponent marker and a well-formed exponent.
pub open spec fn body_ok(s: Seq<u8>) -> bool {
    let e = e_index(s);
    if e == s.len() {
        sig_ok(s)
    } else {
        sig_ok(s.subrange(0, e)) && exp_ok(s.subrange(e + 1, s.len() as int))
    }
}

/// The metric a sign and a well-formed unsigned numeral denote: the
/// significand's digits with the exponent folded into the scale, a positive
/// leftover exponent folded into the mantissa. The zero metric where the
/// numeral is malformed, or where its mantissa or scale cannot be held in a
/// `u64` — the honest cut of this exact decimal model.
pub open spec fn metric_from_body(neg: bool, body: Seq<u8>) -> CustomMetric {
    if body_ok(body) {
        let m = digits_val(sig_digits(body_sig(body)));
        let sc = sig_scale(body_sig(body)) - body_exp_val(body);
        if m == 0 {
            CustomMetric { negative: neg, mantissa: 0, scale: 0 }
        } else if m > u64::MAX as int {
            zero_metric()
        } else if sc > u64::MAX as int {
            zero_metric()
        } else if sc >= 1 {
            CustomMetric { negative: neg, mantissa: m as u64, scale: sc as u64 }
        } else if m * pow10((0 - sc) as nat) <= u64::MAX as int {
            CustomMetric { negative: neg, mantissa: (m * pow10((0 - sc) as nat)) as u64, scale: 0 }
        } else {
            zero_metric()
        }
    } else {
        zero_metric()
    }
}

/// The metric that a child's raw standard output denotes: the trimmed bytes
/// read as an optionally signed numeral, or the zero metric where they are
/// not one.
pub open spec fn metric_of(raw: Seq<u8>) -> CustomMetric {
    let t = trimmed_bytes(raw);
    let signed = t.len() > 0 && (t[0] == 43 || t[0] == 45);
    let neg = t.len() > 0 && t[0] == 45;
    let body = if signed {
        t.drop_first()
    } else {
        t
    };
    metric_from_body(neg, body)
}

/// `dot_index` is the position of the first dot: nothing before index `k` is
/// a dot, and `k` is either the length or a dot's index.
proof fn lemma_dot_index_of(s: Seq<u8>, k: int)
    requires
        0 <= k <= s.len(),
        forall|m: int| 0 <= m < k ==> s[m] != 46,
        k == s.len() || s[k] == 46,
    ensures
        dot_index(s) == k,
    decreases k,
{
    if k == 0 {
        if s.len() > 0 {
            assert(s[0] == 46);
        }
    } else {
        assert(s[0] != 46);
        lemma_dot_index_of(s.drop_first(), k - 1);
    }
}

/// `e_index` is the position of the first exponent marker.
proof fn lemma_e_index_of(s: Seq<u8>, k: int)
    requires
        0 <= k <= s.len(),
        forall|m: int| 0 <= m < k ==> s[m] != 101 && s[m] != 69,
        k == s.len() || s[k] == 101 || s[k] == 69,
    ensures
        e_index(s) == k,
    decreases k,
{
    if k == 0 {
        if s.len() > 0 {
            assert(s[0] == 101 || s[0] == 69);
        }
    } else {
        assert(s[0] != 101 && s[0] != 69);
        lemma_e_index_of(s.drop_first(), k - 1);
    }
}

/// A digit string denotes a non-negative integer, and every prefix of it
/// denotes no more than the whole.
proof fn lemma_digits_val_prefix(s: Seq<u8>, k: int)
    requires
        all_digits(s),
        0 <= k <= s.len(),
    ensures
        0 <= digits_val(s.subrange(0, k)),
        digits_val(s.subrange(0, k)) <= digits_val(s),
    decreases s.len(),
{
    if s.len() == 0 {
        assert(s.subrange(0, k) =~= s);
    } else {
        let d = s.drop_last();
        assert(all_digits(d));
        lemma_digits_val_prefix(d, if k <= d.len() { k } else { d.len() as int });
        assert(0 <= digits_val(d));
        assert(is_ascii_digit(s.last()));
        assert(digits_val(d) <= digits_val(d) * 10) by (nonlinear_arith)
            requires
                0 <= digits_val(d),
        ;
        if k == s.len() {
            assert(s.subrange(0, k) =~= s);
            lemma_digits_val_prefix(s.subrange(0, k).drop_last(), s.len() - 1);
        } else {
            assert(s.subrange(0, k) =~= d.subrange(0, k));
        }
    }
}

/// Powers of ten are at least one and grow with the exponent.
proof fn lemma_pow10_monotone(a: nat, b: nat)
    requires
        a <= b,
    ensures
        1 <= pow10(a),
        pow10(a) <= pow10(b),
    decreases b,
{
    if b == 0 {
    } else if a == b {
        lemma_pow10_monotone((a - 1) as nat, (b - 1) as nat);
    } else {
        lemma_pow10_monotone(a, (b - 1) as nat);
    }
}

/// Ten to the twentieth exceeds `u64`.
proof fn lemma_pow10_20()
    ensures
        pow10(20) > u64::MAX as int,
{
    reveal_with_fuel(pow10, 21);
    assert(pow10(20) == 100_000_000_000_000_000_000);
}

/// The half-open index range that the trimmed bytes occupy.
fn trim_bounds(raw: &Vec<u8>) -> (r: (usize, usize))
    ensures
        r.0 <= r.1 <= raw@.len(),
        trimmed_bytes(raw@) == raw@.subrange(r.0 as int, r.1 as int),
{
    let n: usize = raw.len();
    let ghost whole: Seq<u8> = raw@;
    proof {
        assert(whole.subrange(0, n as int) =~= whole);
    }

    // Strip leading whitespace.
    let mut i: usize = 0;
    while i < n && (raw[i] == 32 || raw[i] == 9 || (raw[i] >= 10 && raw[i] <= 13))
        invariant
            0 <= i <= n,
            n == whole.len(),
            raw@ == whole,
            trim_front(whole) == trim_front(whole.subrange(i as int, n as int)),
        decreases n - i,
    {
        proof {
            let cur = whole.subrange(i as int, n as int);
            assert(cur.len() > 0 && is_ascii_ws(cur[0]));
            assert(cur.drop_first() =~= whole.subrange(i as int + 1, n as int));
        }
        i += 1;
    }
    proof {
        let cur = whole.subrange(i as int, n as int);
        assert(trim_front(cur) == cur);
    }

    // Strip trailing whitespace.
    let mut j: usize = n;
    while j > i && (raw[j - 1] == 32 || raw[j - 1] == 9 || (raw[j - 1] >= 10 && raw[j - 1] <= 13))
        invariant
            i <= j <= n,
            n == whole.len(),
            raw@ == whole,
            trim_front(whole) == whole.subrange(i as int, n as int),
            trim_back(whole.subrange(i as int, n as int)) == trim_back(
                whole.subrange(i as int, j as int),
            ),
        decreases j,
    {
        proof {
            let cur = whole.subrange(i as int, j as int);
            assert(cur.len() > 0 && is_ascii_ws(cur.last()));
            assert(cur.drop_last() =~= whole.subrange(i as int, j as int - 1));
        }
        j -= 1;
    }
    proof {
        let cur = whole.subrange(i as int, j as int);
        assert(trim_back(cur) == cur);
        assert(trimmed_bytes(whole) == whole.subrange(i as int, j as int));
    }
    (i, j)
}

/// Read a digit string as one integer, or report that it exceeds `u64`.
fn digits_to_u64(digs: &Vec<u8>) -> (r: Option<u64>)
    requires
        all_digits(digs@),
    ensures
        match r {
            Some(v) => v == digits_val(digs@),
            None => digits_val(digs@) > u64::MAX as int,
        },
{
    let mut mantissa: u64 = 0;
    let mut idx: usize = 0;
    let len: usize = digs.len();
    while idx < len
        invariant
            0 <= idx <= len,
            len == digs@.len(),
            all_digits(digs@),
            mantissa == digits_val(digs@.subrange(0, idx as int)),
        decreases len - idx,
    {
        let d: u64 = (digs[idx] - 48) as u64;
        proof {
            assert(is_ascii_digit(digs@[idx as int]));
            assert(digs@.subrange(0, idx as int + 1).drop_last() =~= digs@.subrange(0, idx as int));
            assert(digits_val(digs@.subrange(0, idx as int + 1)) == mantissa * 10 + d);
        }
        if mantissa > (u64::MAX - d) / 10 {
            proof {
                assert((mantissa as int) * 10 + d > u64::MAX) by (nonlinear_arith)
                    requires
                        mantissa as int > (u64::MAX - d) as int / 10,
                        0 <= d <= 9,
                        mantissa >= 0,
                ;
                lemma_digits_val_prefix(digs@, idx as int + 1);
            }
            return None;
        }
        mantissa = mantissa * 10 + d;
        idx += 1;
    }
    proof {
        assert(digs@.subrange(0, len as int) =~= digs@);
    }
    Some(mantissa)
}

/// Where an exponent magnitude beyond this bound is cut off: far above any
/// scale a held byte string can produce.
pub const EXP_MAG_CAP: u128 = 0x4_0000_0000_0000_0000;

/// Read an exponent's digit string as one integer, or report that it
/// exceeds `EXP_MAG_CAP`.
fn digits_to_exp_mag(digs: &Vec<u8>) -> (r: Option<u128>)
    requires
        all_digits(digs@),
    ensures
        match r {
            Some(v) => v == digits_val(digs@) && v <= EXP_MAG_CAP,
            None => digits_val(digs@) > EXP_MAG_CAP as int,
        },
{
    let mut mag: u128 = 0;
    let mut idx: usize = 0;
    let len: usize = digs.len();
    while idx < len
        invariant
            0 <= idx <= len,
            len == digs@.len(),
            all_digits(digs@),
            mag == digits_val(digs@.subrange(0, idx as int)),
            mag <= EXP_MAG_CAP,
        decreases len - idx,
    {
        let d: u128 = (digs[idx] - 48) as u128;
        proof {
            assert(is_ascii_digit(digs@[idx as int]));
            assert(digs@.subrange(0, idx as int + 1).drop_last() =~= digs@.subrange(0, idx as int));
            assert(digits_val(digs@.subrange(0, idx as int + 1)) == mag * 10 + d);
        }
        if mag > (EXP_MAG_CAP - d) / 10 {
            proof {
                assert((mag as int) * 10 + d > EXP_MAG_CAP) by (nonlinear_arith)
                    requires
                        mag as int > (EXP_MAG_CAP - d) as int / 10,
                        0 <= d <= 9,
                        mag >= 0,
                        EXP_MAG_CAP == 0x4_0000_0000_0000_0000,
                ;
                lemma_digits_val_prefix(digs@, idx as int + 1);
            }
            return None;
        }
        mag = mag * 10 + d;
        idx += 1;
    }
    proof {
        assert(digs@.subrange(0, len as int) =~= digs@);
    }
    Some(mag)
}

/// Fold a positive leftover exponent into the mantissa: `m * 10^shift`, or
/// nothing where that exceeds `u64`.
fn scale_mantissa_up(m: u64, shift: u128) -> (r: Option<u64>)
    requires
        m >= 1,
    ensures
        match r {
            Some(v) => v == m * pow10(shift as nat),
            None => m * pow10(shift as nat) > u64::MAX as int,
        },
{
    if shift > 19 {
        proof {
            lemma_pow10_20();
            lemma_pow10_monotone(20, shift as nat);
            assert(m * pow10(shift as nat) >= 1 * pow10(shift as nat)) by (nonlinear_arith)
                requires
                    m >= 1,
                    pow10(shift as nat) >= 1,
            ;
        }
        return None;
    }
    let k: u64 = shift as u64;
    let mut acc: u128 = m as u128;
    let mut i: u64 = 0;
    while i < k
        invariant
            0 <= i <= k,
            k == shift,
            k <= 19,
            m >= 1,
            acc == m * pow10(i as nat),
            acc >= 1,
        decreases k - i,
    {
        if acc > u64::MAX as u128 {
            proof {
                lemma_pow10_monotone(i as nat, k as nat);
                assert(m * pow10(i as nat) <= m * pow10(k as nat)) by (nonlinear_arith)
                    requires
                        m >= 0,
                        pow10(i as nat) <= pow10(k as nat),
                ;
            }
            return None;
        }
        proof {
            assert(m * pow10(i as nat) * 10 == m * pow10((i + 1) as nat)) by (nonlinear_arith)
                requires
                    pow10((i + 1) as nat) == 10 * pow10(i as nat),
            ;
        }
        acc = acc * 10;
        i += 1;
    }
    if acc > u64::MAX as u128 {
        None
    } else {
        Some(acc as u64)
    }
}

/// Parse the child's captured standard output as a custom metric.
///
/// The result is exactly `metric_of` of the bytes: the value of the trimmed,
/// optionally signed numeral with its exponent folded in, or the zero metric
/// where the bytes are not one.
#[verifier::rlimit(100)]
pub fn parse_custom_metric(raw: &Vec<u8>) -> (m: CustomMetric)
    ensures
        m == metric_of(raw@),
{
    let n: usize = raw.len();
    let ghost whole: Seq<u8> = raw@;
    let (i, j) = trim_bounds(raw);
    let ghost t: Seq<u8> = whole.subrange(i as int, j as int);

    // Sign.
    let mut neg: bool = false;
    let mut pos: usize = i;
    if i < j && (raw[i] == 43 || raw[i] == 45) {
        neg = raw[i] == 45;
        pos = i + 1;
        proof {
            assert(t.drop_first() =~= whole.subrange(i as int + 1, j as int));
        }
    }
    let ghost body: Seq<u8> = whole.subrange(pos as int, j as int);
    proof {
        assert(metric_of(whole) == metric_from_body(neg, body));
    }

    // Locate the exponent marker.
    let mut eidx: usize = pos;
    while eidx < j && raw[eidx] != 101 && raw[eidx] != 69
        invariant
            pos <= eidx <= j <= n,
            n == whole.len(),
            raw@ == whole,
            body == whole.subrange(pos as int, j as int),
            forall|m: int| pos <= m < eidx ==> whole[m] != 101 && whole[m] != 69,
        decreases j - eidx,
    {
        eidx += 1;
    }
    let ghost sig: Seq<u8> = whole.subrange(pos as int, eidx as int);
    proof {
        lemma_e_index_of(body, eidx - pos);
        assert(e_index(body) == eidx - pos);
        if eidx < j {
            assert(body.subrange(0, eidx - pos) =~= sig);
        }
        assert(body_sig(body) == sig);
    }

    // Locate the decimal point inside the significand.
    let mut dotk: usize = pos;
    while dotk < eidx && raw[dotk] != 46
        invariant
            pos <= dotk <= eidx <= j <= n,
            n == whole.len(),
            raw@ == whole,
            sig == whole.subrange(pos as int, eidx as int),
            forall|m: int| pos <= m < dotk ==> whole[m] != 46,
        decreases eidx - dotk,
    {
        dotk += 1;
    }
    proof {
        lemma_dot_index_of(sig, dotk - pos);
        assert(dot_index(sig) == dotk - pos);
    }

    // The significand needs at least one digit: it may not be empty, and a
    // lone dot is not enough.
    if dotk == eidx && eidx == pos {
        proof {
            assert(sig.len() == 0);
            assert(!sig_ok(sig));
        }
        return CustomMetric { negative: false, mantissa: 0, scale: 0 };
    }
    if dotk < eidx && eidx - pos < 2 {
        proof {
            assert(!sig_ok(sig));
        }
        return CustomMetric { negative: false, mantissa: 0, scale: 0 };
    }

    // Collect the significand's digits, dropping the dot.
    let mut digs: Vec<u8> = Vec::new();
    let mut m: usize = pos;
    while m < dotk
        invariant
            pos <= m <= dotk <= eidx <= j <= n,
            n == whole.len(),
            raw@ == whole,
            body == whole.subrange(pos as int, j as int),
            sig == whole.subrange(pos as int, eidx as int),
            body_sig(body) == sig,
            dot_index(sig) == dotk - pos,
            metric_of(whole) == metric_from_body(neg, body),
            digs@ == whole.subrange(pos as int, m as int),
            all_digits(digs@),
        decreases dotk - m,
    {
        let b = raw[m];
        if !(48 <= b && b <= 57) {
            proof {
                let k = dot_index(sig);
                if k == sig.len() {
                    assert(sig[m - pos] == whole[m as int]);
                    assert(!all_digits(sig));
                } else {
                    assert(sig.subrange(0, k)[m - pos] == whole[m as int]);
                    assert(!all_digits(sig.subrange(0, k)));
                }
                assert(!sig_ok(sig));
                assert(!body_ok(body));
            }
            return CustomMetric { negative: false, mantissa: 0, scale: 0 };
        }
        digs.push(b);
        proof {
            assert(digs@ =~= whole.subrange(pos as int, m as int + 1));
        }
        m += 1;
    }

    let mut scale0: usize = 0;
    if dotk < eidx {
        let mut m2: usize = dotk + 1;
        while m2 < eidx
            invariant
                dotk + 1 <= m2 <= eidx <= j <= n,
                pos <= dotk < eidx,
                n == whole.len(),
                raw@ == whole,
                body == whole.subrange(pos as int, j as int),
                sig == whole.subrange(pos as int, eidx as int),
                body_sig(body) == sig,
                dot_index(sig) == dotk - pos,
                metric_of(whole) == metric_from_body(neg, body),
                digs@ == whole.subrange(pos as int, dotk as int) + whole.subrange(
                    dotk as int + 1,
                    m2 as int,
                ),
                all_digits(digs@),
            decreases eidx - m2,
        {
            let b = raw[m2];
            if !(48 <= b && b <= 57) {
                proof {
                    let k = dot_index(sig);
                    let frac = sig.subrange(k + 1, sig.len() as int);
                    assert(frac[m2 - dotk - 1] == whole[m2 as int]);
                    assert(!all_digits(frac));
                    assert(!sig_ok(sig));
                    assert(!body_ok(body));
                }
                return CustomMetric { negative: false, mantissa: 0, scale: 0 };
            }
            digs.push(b);
            proof {
                assert(digs@ =~= whole.subrange(pos as int, dotk as int) + whole.subrange(
                    dotk as int + 1,
                    m2 as int + 1,
                ));
            }
            m2 += 1;
        }
        scale0 = eidx - dotk - 1;
    }

    // The significand is well formed; its dropped-dot digit string is
    // `digs`.
    proof {
        let k = dot_index(sig);
        if dotk == eidx {
            assert(k == sig.len());
            assert(sig =~= whole.subrange(pos as int, dotk as int));
            assert(digs@ =~= sig);
            assert(sig_ok(sig));
        } else {
            let intpart = sig.subrange(0, k);
            let frac = sig.subrange(k + 1, sig.len() as int);
            assert(intpart =~= whole.subrange(pos as int, dotk as int));
            assert(frac =~= whole.subrange(dotk as int + 1, eidx as int));
            assert forall|x: int| 0 <= x < intpart.len() implies is_ascii_digit(
                #[trigger] intpart[x],
            ) by {
                assert(intpart[x] == digs@[x]);
            }
            assert forall|x: int| 0 <= x < frac.len() implies is_ascii_digit(#[trigger] frac[x]) by {
                assert(frac[x] == digs@[dotk - pos + x]);
            }
            assert(sig_ok(sig));
            assert(digs@ =~= sig_digits(sig));
        }
        assert(digs@ == sig_digits(sig));
        assert(scale0 == sig_scale(sig));
    }

    // The exponent part, when present: an optional sign and one or more
    // digits.
    let have_exp: bool = eidx < j;
    let mut eneg: bool = false;
    let mut evec: Vec<u8> = Vec::new();
    let ghost ep: Seq<u8> = whole.subrange(eidx as int + 1, j as int);
    if have_exp {
        proof {
            assert(body.subrange(eidx - pos + 1, body.len() as int) =~= ep);
        }
        let mut expos: usize = eidx + 1;
        if expos < j && (raw[expos] == 43 || raw[expos] == 45) {
            eneg = raw[expos] == 45;
            expos = expos + 1;
            proof {
                assert(ep.drop_first() =~= whole.subrange(eidx as int + 2, j as int));
            }
        }
        proof {
            assert(exp_mag_digits(ep) =~= whole.subrange(expos as int, j as int));
        }
        if expos == j {
            proof {
                assert(exp_mag_digits(ep).len() == 0);
                assert(!exp_ok(ep));
                assert(!body_ok(body));
            }
            return CustomMetric { negative: false, mantissa: 0, scale: 0 };
        }
        let mut m3: usize = expos;
        while m3 < j
            invariant
                eidx < expos <= m3 <= j <= n,
                n == whole.len(),
                raw@ == whole,
                body == whole.subrange(pos as int, j as int),
                pos <= eidx,
                e_index(body) == eidx - pos,
                ep == whole.subrange(eidx as int + 1, j as int),
                body.subrange(eidx - pos + 1, body.len() as int) == ep,
                exp_mag_digits(ep) == whole.subrange(expos as int, j as int),
                metric_of(whole) == metric_from_body(neg, body),
                evec@ == whole.subrange(expos as int, m3 as int),
                all_digits(evec@),
            decreases j - m3,
        {
            let b = raw[m3];
            if !(48 <= b && b <= 57) {
                proof {
                    assert(exp_mag_digits(ep)[m3 - expos] == whole[m3 as int]);
                    assert(!all_digits(exp_mag_digits(ep)));
                    assert(!exp_ok(ep));
                    assert(!body_ok(body));
                }
                return CustomMetric { negative: false, mantissa: 0, scale: 0 };
            }
            evec.push(b);
            proof {
                assert(evec@ =~= whole.subrange(expos as int, m3 as int + 1));
            }
            m3 += 1;
        }
        proof {
            assert(evec@ =~= exp_mag_digits(ep));
            assert(exp_ok(ep));
        }
    }

    // Everything is validated: the numeral is well formed.
    proof {
        if have_exp {
            assert(body.subrange(0, eidx - pos) =~= sig);
            assert(body.subrange(eidx - pos + 1, body.len() as int) =~= ep);
            assert(body_ok(body));
            assert(body_exp_val(body) == exp_val(ep));
            assert(eneg ==> ep.len() > 0 && ep[0] == 45);
            if eneg {
                assert(exp_val(ep) == -digits_val(evec@));
            } else {
                assert(exp_val(ep) == digits_val(evec@));
            }
        } else {
            assert(body =~= sig);
            assert(body_ok(body));
            assert(body_exp_val(body) == 0);
        }
    }

    // Read the mantissa, giving up where it exceeds `u64`.
    let mantissa: u64 = match digits_to_u64(&digs) {
        Some(v) => v,
        None => {
            return CustomMetric { negative: false, mantissa: 0, scale: 0 };
        },
    };
    if mantissa == 0 {
        return CustomMetric { negative: neg, mantissa: 0, scale: 0 };
    }

    // Fold the exponent into the scale.
    let sc128: i128 = if have_exp {
        match digits_to_exp_mag(&evec) {
            Some(mag) => {
                if eneg {
                    scale0 as i128 + mag as i128
                } else {
                    scale0 as i128 - mag as i128
                }
            },
            None => {
                // The magnitude is beyond any scale a held byte string can
                // produce: the value is either below every positive decimal
                // or beyond `u64`.
                proof {
                    let sc = sig_scale(sig) - body_exp_val(body);
                    if eneg {
                        assert(sc > u64::MAX as int);
                    } else {
                        assert(sc <= scale0 - (EXP_MAG_CAP as int + 1));
                        assert(0 - sc >= 20);
                        lemma_pow10_20();
                        lemma_pow10_monotone(20, (0 - sc) as nat);
                        assert(mantissa * pow10((0 - sc) as nat) >= 1 * pow10((0 - sc) as nat))
                            by (nonlinear_arith)
                            requires
                                mantissa >= 1,
                                pow10((0 - sc) as nat) >= 1,
                        ;
                    }
                }
                return CustomMetric { negative: false, mantissa: 0, scale: 0 };
            },
        }
    } else {
        scale0 as i128
    };
    proof {
        assert(sc128 == sig_scale(sig) - body_exp_val(body));
    }

    if sc128 >= 1 {
        if sc128 > u64::MAX as i128 {
            return CustomMetric { negative: false, mantissa: 0, scale: 0 };
        }
        CustomMetric { negative: neg, mantissa, scale: sc128 as u64 }
    } else {
        let shift: u128 = (-sc128) as u128;
        match scale_mantissa_up(mantissa, shift) {
            Some(v) => CustomMetric { negative: neg, mantissa: v, scale: 0 },
            None => CustomMetric { negative: false, mantissa: 0, scale: 0 },
        }
    }
}

} // verus!
