use vstd::prelude::*;

verus! {

/// Largest mantissa a [`Decimal`] may hold: eighteen nines.
pub const MANTISSA_LIMIT: u64 = 999_999_999_999_999_999;

/// Most digits a [`Decimal`] may carry after its point.
pub const SCALE_LIMIT: u32 = 18;

pub open spec fn is_digit(c: char) -> bool {
    '0' <= c && c <= '9'
}

pub open spec fn digit_of(c: char) -> nat {
    (c as nat - '0' as nat) as nat
}

pub open spec fn all_digits(s: Seq<char>) -> bool {
    forall|i: int| 0 <= i < s.len() ==> is_digit(#[trigger] s[i])
}

/// The number that a run of decimal digits denotes.
pub open spec fn digits_value(s: Seq<char>) -> nat
    decreases s.len(),
{
    if s.len() == 0 {
        0
    } else {
        digits_value(s.drop_last()) * 10 + digit_of(s.last())
    }
}

/// Text of an unsigned integer once an optional leading `+` is taken off.
pub open spec fn unsigned_body(s: Seq<char>) -> Seq<char> {
    if s.len() > 0 && s[0] == '+' {
        s.drop_first()
    } else {
        s
    }
}

/// An unsigned 32-bit integer in decimal notation, with an optional `+`.
pub open spec fn spec_parse_u32(s: Seq<char>) -> Option<u32> {
    let d = unsigned_body(s);
    if d.len() > 0 && all_digits(d) && digits_value(d) <= u32::MAX {
        Some(digits_value(d) as u32)
    } else {
        None
    }
}

pub open spec fn pow10(n: nat) -> nat
    decreases n,
{
    if n == 0 {
        1
    } else {
        10 * pow10((n - 1) as nat)
    }
}

/// A number in plain decimal notation: `negative ? -1 : 1` times
/// `mantissa / 10^scale`.
#[derive(Clone, Copy, Debug, PartialEq, Eq)]
pub struct Decimal {
    pub negative: bool,
    pub mantissa: u64,
    pub scale: u32,
}

impl Decimal {
    pub open spec fn wf(self) -> bool {
        self.mantissa <= MANTISSA_LIMIT && self.scale <= SCALE_LIMIT
    }

    /// The numerator of the value over the denominator `10^scale`.
    pub open spec fn numerator(self) -> int {
        if self.negative {
            -(self.mantissa as int)
        } else {
            self.mantissa as int
        }
    }
}

/// `a <= b` on the rational values of two decimals.
pub open spec fn dec_le(a: Decimal, b: Decimal) -> bool {
    a.numerator() * pow10(b.scale as nat) <= b.numerator() * pow10(a.scale as nat)
}

/// Scan of a run of digits with at most one point: the digits read as one
/// integer, how many of them follow the point, whether a point was seen, and
/// how many digits there are.
pub open spec fn scan_number(b: Seq<char>) -> Option<(nat, nat, bool, nat)>
    decreases b.len(),
{
    if b.len() == 0 {
        Some((0, 0, false, 0))
    } else {
        match scan_number(b.drop_last()) {
            None => None,
            Some((m, f, dot, n)) => {
                let c = b.last();
                if is_digit(c) {
                    Some((m * 10 + digit_of(c), if dot { f + 1 } else { f }, dot, n + 1))
                } else if c == '.' && !dot {
                    Some((m, f, true, n))
                } else {
                    None
                }
            },
        }
    }
}

pub open spec fn sign_len(s: Seq<char>) -> int {
    if s.len() > 0 && (s[0] == '+' || s[0] == '-') {
        1
    } else {
        0
    }
}

/// Largest exponent magnitude that a number may be written with.
pub const EXPONENT_LIMIT: u32 = 1000;

pub open spec fn is_exp_mark(c: char) -> bool {
    c == 'e' || c == 'E'
}

/// Index of the first `e` or `E` in `s`, -1 when there is none.
pub open spec fn exp_index(s: Seq<char>) -> int
    decreases s.len(),
{
    if s.len() == 0 {
        -1
    } else if is_exp_mark(s.last()) && exp_index(s.drop_last()) == -1 {
        s.len() - 1
    } else {
        exp_index(s.drop_last())
    }
}

/// An exponent: an optional sign and at least one digit, at most
/// [`EXPONENT_LIMIT`] in magnitude.
pub open spec fn spec_parse_exponent(s: Seq<char>) -> Option<int> {
    let k = sign_len(s);
    let d = s.skip(k);
    if d.len() > 0 && all_digits(d) && digits_value(d) <= EXPONENT_LIMIT {
        Some(if k == 1 && s[0] == '-' { -(digits_value(d) as int) } else { digits_value(d) as int })
    } else {
        None
    }
}

/// The decimal `±m * 10^k`, when it can be held.
pub open spec fn scaled(negative: bool, m: nat, k: int) -> Option<Decimal> {
    if m == 0 {
        Some(Decimal { negative, mantissa: 0, scale: 0 })
    } else if k >= 0 {
        if m * pow10(k as nat) <= MANTISSA_LIMIT {
            Some(Decimal { negative, mantissa: (m * pow10(k as nat)) as u64, scale: 0 })
        } else {
            None
        }
    } else if -k <= SCALE_LIMIT {
        Some(Decimal { negative, mantissa: m as u64, scale: (-k) as u32 })
    } else {
        None
    }
}

/// A real number written as an optional sign, digits with at most one point
/// and at least one digit (`-2`, `0.5`, `.5`, `3.`), then an optional
/// exponent (`1e1`, `2.5E-3`). Refused, though real numbers: `inf`, `NaN`,
/// more than 18 digits before the exponent or more than 18 after the point,
/// an exponent beyond [`EXPONENT_LIMIT`], and values that would need more
/// than 18 digits or more than 18 decimal places.
pub open spec fn spec_parse_decimal(s: Seq<char>) -> Option<Decimal> {
    let k = sign_len(s);
    let b = s.skip(k);
    let ei = exp_index(b);
    let mant = if ei >= 0 { b.take(ei) } else { b };
    let ex = if ei >= 0 { spec_parse_exponent(b.skip(ei + 1)) } else { Some(0int) };
    match (scan_number(mant), ex) {
        (Some((m, f, _dot, n)), Some(e)) => if n >= 1 && m <= MANTISSA_LIMIT && f <= SCALE_LIMIT {
            scaled(k == 1 && s[0] == '-', m, e - f)
        } else {
            None
        },
        _ => None,
    }
}

proof fn lemma_saturate_step(v: nat, acc: u64, d: nat)
    requires
        d <= 9,
        acc as nat == if v <= MANTISSA_LIMIT { v } else { MANTISSA_LIMIT as nat + 1 },
    ensures
        ({
            let w = v * 10 + d;
            let nxt: nat = if acc as nat <= MANTISSA_LIMIT { acc as nat * 10 + d } else { acc as nat };
            (if nxt <= MANTISSA_LIMIT { nxt } else { MANTISSA_LIMIT as nat + 1 }) == (if w <= MANTISSA_LIMIT { w } else { MANTISSA_LIMIT as nat + 1 })
        }),
{
    if v > MANTISSA_LIMIT {
        assert(v * 10 + d > MANTISSA_LIMIT) by (nonlinear_arith)
            requires v > MANTISSA_LIMIT;
    }
}

fn digit_value(c: char) -> (r: u64)
    requires
        is_digit(c),
    ensures
        r as nat == digit_of(c),
        r <= 9,
{
    (c as u32 - '0' as u32) as u64
}

/// Reads an unsigned 32-bit integer as `str::parse::<u32>` does.
pub fn parse_u32(s: &str) -> (r: Option<u32>)
    ensures
        r == spec_parse_u32(s@),
{
    let len = s.unicode_len();
    let mut i: usize = 0;
    if len > 0 && s.get_char(0) == '+' {
        i = 1;
    }
    let start = i;
    let ghost d = unsigned_body(s@);
    assert(d == s@.skip(start as int));
    if start == len {
        return None;
    }
    let cap: u64 = u32::MAX as u64 + 1;
    let mut acc: u64 = 0;
    while i < len
        invariant
            start <= i <= len,
            len == s@.len(),
            d == s@.skip(start as int),
            d == unsigned_body(s@),
            all_digits(d.take(i - start)),
            acc as nat == if digits_value(d.take(i - start)) < cap { digits_value(d.take(i - start)) } else { cap as nat },
            cap == u32::MAX as u64 + 1,
        decreases len - i,
    {
        let c = s.get_char(i);
        let ghost p = d.take(i - start);
        let ghost q = d.take(i + 1 - start);
        assert(q.drop_last() == p);
        assert(q.last() == c);
        if !('0' <= c && c <= '9') {
            assert(d[i - start] == c);
            assert(!is_digit(d[i - start]));
            assert(!all_digits(d));
            return None;
        }
        let dv = digit_value(c);
        let ghost v = digits_value(p);
        proof {
            if v >= cap as nat {
                assert(v * 10 + dv >= cap as nat) by (nonlinear_arith)
                    requires v >= cap as nat;
            }
        }
        if acc < cap {
            acc = acc * 10 + dv;
            if acc > cap {
                acc = cap;
            }
        }
        i = i + 1;
    }
    assert(d.take(len - start) == d);
    if acc < cap {
        Some(acc as u32)
    } else {
        None
    }
}


proof fn lemma_exp_prefix(s: Seq<char>, i: int)
    requires
        0 <= i < s.len(),
        is_exp_mark(s[i]),
        exp_index(s.take(i)) == -1,
    ensures
        exp_index(s) == i,
    decreases s.len(),
{
    if s.len() == i + 1 {
        assert(s.drop_last() =~= s.take(i));
    } else {
        assert(s.drop_last().take(i) =~= s.take(i));
        lemma_exp_prefix(s.drop_last(), i);
    }
}

/// Position of the first exponent mark at or after `from`.
fn find_exp_mark(s: &str, from: usize) -> (r: Option<usize>)
    requires
        from <= s@.len(),
    ensures
        r is None <==> exp_index(s@.skip(from as int)) == -1,
        r matches Some(j) ==> from <= j < s@.len() && j - from == exp_index(s@.skip(from as int)),
{
    let len = s.unicode_len();
    let ghost b = s@.skip(from as int);
    let mut i: usize = from;
    while i < len
        invariant
            from <= i <= len == s@.len(),
            b == s@.skip(from as int),
            exp_index(b.take(i - from)) == -1,
        decreases len - i,
    {
        let c = s.get_char(i);
        assert(b.take(i + 1 - from).drop_last() == b.take(i - from));
        if c == 'e' || c == 'E' {
            assert(b[i - from] == c);
            proof {
                lemma_exp_prefix(b, i - from);
            }
            return Some(i);
        }
        assert(b.take(i + 1 - from).last() == c);
        i = i + 1;
    }
    assert(b.take(len - from) =~= b);
    None
}

/// Reads an exponent (see [`spec_parse_exponent`]).
fn parse_exponent(t: &str) -> (r: Option<i64>)
    ensures
        match spec_parse_exponent(t@) {
            Some(e) => r == Some(e as i64) && -1000 <= e <= 1000,
            None => r is None,
        },
{
    let len = t.unicode_len();
    let mut k: usize = 0;
    let mut negative = false;
    if len > 0 {
        let c0 = t.get_char(0);
        if c0 == '+' || c0 == '-' {
            k = 1;
            negative = c0 == '-';
        }
    }
    let ghost d = t@.skip(k as int);
    if k < len && t.get_char(k) == '+' {
        assert(d[0] == '+' && !is_digit(d[0]));
        return None;
    }
    let digits = t.substring_char(k, len);
    assert(digits@ =~= d);
    assert(unsigned_body(d) == d);
    match parse_u32(digits) {
        Some(v) => {
            if v <= EXPONENT_LIMIT {
                Some(if negative { -(v as i64) } else { v as i64 })
            } else {
                None
            }
        },
        None => None,
    }
}

/// Reads a real number (see [`spec_parse_decimal`]).
pub fn parse_decimal(s: &str) -> (r: Option<Decimal>)
    ensures
        r == spec_parse_decimal(s@),
        r matches Some(d) ==> d.wf(),
{
    let len = s.unicode_len();
    let mut k: usize = 0;
    let mut negative = false;
    if len > 0 {
        let c0 = s.get_char(0);
        if c0 == '+' || c0 == '-' {
            k = 1;
            negative = c0 == '-';
        }
    }
    let ghost full = s@.skip(k as int);
    let mark = find_exp_mark(s, k);
    let end: usize = match mark {
        Some(j) => j,
        None => len,
    };
    let ghost b = s@.subrange(k as int, end as int);
    assert(b =~= (if exp_index(full) >= 0 { full.take(exp_index(full)) } else { full }));
    let mut i: usize = k;
    let mut acc: u64 = 0;
    let mut frac: usize = 0;
    let mut dot = false;
    let mut n: usize = 0;
    while i < end
        invariant
            k <= i <= end <= len,
            len == s@.len(),
            k == sign_len(s@),
            b == s@.subrange(k as int, end as int),
            full == s@.skip(k as int),
            b == (if exp_index(full) >= 0 { full.take(exp_index(full)) } else { full }),
            negative == (k == 1 && s@[0] == '-'),
            scan_number(b.take(i - k)) matches Some((m, f, dt, nn)) && acc as nat == (if m <= MANTISSA_LIMIT { m } else { MANTISSA_LIMIT as nat + 1 })
                && frac as nat == f && dot == dt && n as nat == nn,
            frac <= i,
            n <= i,
        decreases end - i,
    {
        let c = s.get_char(i);
        let ghost p = b.take(i - k);
        let ghost q = b.take(i + 1 - k);
        assert(q.drop_last() == p);
        assert(q.last() == c);
        let ghost m = scan_number(p).unwrap().0;
        if '0' <= c && c <= '9' {
            let dv = digit_value(c);
            proof {
                lemma_saturate_step(m, acc, dv as nat);
            }
            if acc <= MANTISSA_LIMIT {
                acc = acc * 10 + dv;
                if acc > MANTISSA_LIMIT {
                    acc = MANTISSA_LIMIT + 1;
                }
            }
            if dot {
                frac = frac + 1;
            }
            n = n + 1;
        } else if c == '.' && !dot {
            dot = true;
        } else {
            assert(scan_number(q) is None);
            proof {
                lemma_scan_none_extends(b, (i + 1 - k) as nat);
            }
            return None;
        }
        i = i + 1;
    }
    assert(b.take(end - k) == b);
    let ex: Option<i64> = match mark {
        Some(j) => {
            let t = s.substring_char(j + 1, len);
            assert(t@ =~= full.skip(exp_index(full) + 1));
            parse_exponent(t)
        },
        None => Some(0),
    };
    let e = match ex {
        Some(e) => e,
        None => {
            return None;
        },
    };
    if !(n >= 1 && acc <= MANTISSA_LIMIT && frac <= SCALE_LIMIT as usize) {
        return None;
    }
    if acc == 0 {
        return Some(Decimal { negative, mantissa: 0, scale: 0 });
    }
    let kk: i64 = e - frac as i64;
    if kk >= 0 {
        if kk > 18 {
            proof {
                lemma_pow10_mono(19, kk as nat);
                reveal_with_fuel(pow10, 20);
                assert(acc as nat * pow10(kk as nat) >= pow10(kk as nat)) by (nonlinear_arith)
                    requires acc >= 1;
            }
            return None;
        }
        let p = pow10_exec(kk as u32);
        proof {
            assert(acc as u128 * p <= 1_000_000_000_000_000_000u128 * 1_000_000_000_000_000_000u128) by (nonlinear_arith)
                requires acc <= 1_000_000_000_000_000_000u128, p <= 1_000_000_000_000_000_000u128;
        }
        let v: u128 = acc as u128 * p;
        if v <= MANTISSA_LIMIT as u128 {
            Some(Decimal { negative, mantissa: v as u64, scale: 0 })
        } else {
            None
        }
    } else if -kk <= SCALE_LIMIT as i64 {
        Some(Decimal { negative, mantissa: acc, scale: (-kk) as u32 })
    } else {
        None
    }
}

proof fn lemma_scan_none_extends(b: Seq<char>, j: nat)
    requires
        j <= b.len(),
        scan_number(b.take(j as int)) is None,
    ensures
        scan_number(b) is None,
    decreases b.len() - j,
{
    if j < b.len() {
        let q = b.take(j as int + 1);
        assert(q.drop_last() == b.take(j as int));
        lemma_scan_none_extends(b, j + 1);
    } else {
        assert(b.take(j as int) == b);
    }
}

fn pow10_exec(n: u32) -> (r: u128)
    requires
        n <= SCALE_LIMIT,
    ensures
        r as nat == pow10(n as nat),
        r <= 1_000_000_000_000_000_000u128,
{
    proof {
        reveal_with_fuel(pow10, 20);
    }
    assert(pow10(18) == 1_000_000_000_000_000_000nat);
    let mut r: u128 = 1;
    let mut i: u32 = 0;
    while i < n
        invariant
            i <= n <= SCALE_LIMIT,
            r as nat == pow10(i as nat),
            pow10(18) == 1_000_000_000_000_000_000nat,
        decreases n - i,
    {
        proof {
            lemma_pow10_mono((i + 1) as nat, 18);
            assert(pow10((i + 1) as nat) == 10 * pow10(i as nat));
        }
        r = r * 10;
        i = i + 1;
    }
    proof {
        lemma_pow10_mono(n as nat, 18);
    }
    r
}

proof fn lemma_pow10_mono(a: nat, b: nat)
    requires
        a <= b,
    ensures
        pow10(a) <= pow10(b),
        pow10(a) >= 1,
    decreases b,
{
    if b > a {
        lemma_pow10_mono(a, (b - 1) as nat);
    } else if a > 0 {
        lemma_pow10_mono((a - 1) as nat, (a - 1) as nat);
    }
}

/// Whether `a <= b` as rational numbers.
pub fn decimal_le(a: Decimal, b: Decimal) -> (r: bool)
    requires
        a.wf(),
        b.wf(),
    ensures
        r == dec_le(a, b),
{
    let pa = pow10_exec(a.scale);
    let pb = pow10_exec(b.scale);
    let ma = a.mantissa as u128;
    let mb = b.mantissa as u128;
    proof {
        lemma_pow10_mono(a.scale as nat, 18);
        lemma_pow10_mono(b.scale as nat, 18);
        assert(ma * pb <= 1_000_000_000_000_000_000u128 * 1_000_000_000_000_000_000u128) by (nonlinear_arith)
            requires ma <= 1_000_000_000_000_000_000u128, pb <= 1_000_000_000_000_000_000u128;
        assert(mb * pa <= 1_000_000_000_000_000_000u128 * 1_000_000_000_000_000_000u128) by (nonlinear_arith)
            requires mb <= 1_000_000_000_000_000_000u128, pa <= 1_000_000_000_000_000_000u128;
    }
    let left = ma * pb;
    let right = mb * pa;
    proof {
        assert(pa >= 1 && pb >= 1);
        assert(left >= 0 && right >= 0);
        assert(-(ma as int) * (pb as int) == -((ma * pb) as int)) by (nonlinear_arith);
        assert(-(mb as int) * (pa as int) == -((mb * pa) as int)) by (nonlinear_arith);
    }
    if a.negative && b.negative {
        right <= left
    } else if a.negative {
        true
    } else if b.negative {
        left == 0 && right == 0
    } else {
        left <= right
    }
}

} // verus!
