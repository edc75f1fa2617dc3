use vstd::prelude::*;
use vstd::string::*;
use crate::big::{big_add, big_less, big_scaled, big_value};

verus! {

/// Ten to the power `n`.
pub open spec fn pow10(n: nat) -> nat
    decreases n,
{
    if n == 0 {
        1
    } else {
        10 * pow10((n - 1) as nat)
    }
}

/// Largest power of ten that fits in `u128`.
pub const MAX_EXP10: u32 = 38;

/// An exact decimal number: `(-1)^negative * mantissa / 10^scale`.
#[derive(Clone, Copy, Debug, PartialEq, Eq, Structural)]
pub struct Decimal {
    pub negative: bool,
    pub mantissa: u128,
    pub scale: u32,
}

impl Decimal {
    /// Signed numerator of the value over `den()`.
    pub open spec fn num(self) -> int {
        if self.negative {
            -(self.mantissa as int)
        } else {
            self.mantissa as int
        }
    }

    pub open spec fn den(self) -> nat {
        pow10(self.scale as nat)
    }

    /// A whole number.
    pub fn from_int(n: u64) -> (r: Decimal)
        ensures
            r.num() == n as int,
            r.den() == 1,
    {
        Decimal { negative: false, mantissa: n as u128, scale: 0 }
    }
}

/// `a < b` as rational numbers.
pub open spec fn dec_lt(a: Decimal, b: Decimal) -> bool {
    a.num() * b.den() < b.num() * a.den()
}

/// `a == b` as rational numbers.
pub open spec fn dec_eq(a: Decimal, b: Decimal) -> bool {
    a.num() * b.den() == b.num() * a.den()
}

pub proof fn lemma_pow10_positive(n: nat)
    ensures
        pow10(n) >= 1,
    decreases n,
{
    if n > 0 {
        lemma_pow10_positive((n - 1) as nat);
    }
}

pub proof fn lemma_pow10_add(a: nat, b: nat)
    ensures
        pow10(a + b) == pow10(a) * pow10(b),
    decreases a,
{
    if a > 0 {
        let a1 = (a - 1) as nat;
        lemma_pow10_add(a1, b);
        assert(a + b == (a1 + b) + 1);
        assert(pow10(a + b) == 10 * pow10(a1 + b));
        assert(pow10(a) == 10 * pow10(a1));
        let x = pow10(a1);
        let y = pow10(b);
        assert(10 * (x * y) == (10 * x) * y) by (nonlinear_arith);
    } else {
        assert(a + b == b);
        assert(pow10(a) == 1);
    }
}

pub proof fn lemma_pow10_mono(a: nat, b: nat)
    requires
        a <= b,
    ensures
        pow10(a) <= pow10(b),
    decreases b,
{
    if a < b {
        lemma_pow10_mono(a, (b - 1) as nat);
        lemma_pow10_positive((b - 1) as nat);
    }
}

proof fn lemma_pow10_max()
    ensures
        pow10(MAX_EXP10 as nat) <= u128::MAX,
{
    reveal_with_fuel(pow10, 39);
}

/// Computes `10^n` for `n <= MAX_EXP10`.
fn pow10_u128(n: u32) -> (r: u128)
    requires
        n <= MAX_EXP10,
    ensures
        r == pow10(n as nat),
{
    let mut r: u128 = 1;
    let mut i: u32 = 0;
    while i < n
        invariant
            i <= n <= MAX_EXP10,
            r == pow10(i as nat),
        decreases n - i,
    {
        proof {
            lemma_pow10_mono((i + 1) as nat, MAX_EXP10 as nat);
            lemma_pow10_max();
        }
        r = r * 10;
        i = i + 1;
    }
    r
}

/// Compares `am / 10^asc` with `bm / 10^bsc`: the sign of
/// `am * 10^bsc - bm * 10^asc`.
#[verifier::spinoff_prover]
#[verifier::rlimit(80)]
fn compare_magnitude(am: u128, asc: u32, bm: u128, bsc: u32) -> (r: i8)
    ensures
        r == -1 <==> (am as int) * pow10(bsc as nat) < (bm as int) * pow10(asc as nat),
        r == 0 <==> (am as int) * pow10(bsc as nat) == (bm as int) * pow10(asc as nat),
        r == 1 <==> (am as int) * pow10(bsc as nat) > (bm as int) * pow10(asc as nat),
    decreases if asc <= bsc { 0int } else { 1int },
{
    if asc <= bsc && bsc - asc > MAX_EXP10 {
        proof {
            lemma_pow10_positive(asc as nat);
            lemma_pow10_mono((MAX_EXP10 + 1) as nat, (bsc - asc) as nat);
            reveal_with_fuel(pow10, 40);
            lemma_pow10_add((bsc - asc) as nat, asc as nat);
            assert((bsc - asc) as nat + asc as nat == bsc as nat);
            let p = pow10((bsc - asc) as nat);
            let q = pow10(asc as nat);
            assert(p > u128::MAX);
            assert(am > 0 ==> am as int * (p * q) > bm as int * q) by (nonlinear_arith)
                requires
                    p > u128::MAX,
                    q >= 1,
                    bm <= u128::MAX,
            ;
            assert(bm > 0 ==> bm as int * q > 0) by (nonlinear_arith)
                requires
                    q >= 1,
            ;
        }
        if am > 0 {
            1
        } else if bm > 0 {
            -1
        } else {
            0
        }
    } else if asc <= bsc {
        let p = pow10_u128(bsc - asc);
        let ghost q = pow10(asc as nat);
        proof {
            lemma_pow10_add((bsc - asc) as nat, asc as nat);
            lemma_pow10_positive(asc as nat);
            assert((bsc - asc) as nat + asc as nat == bsc as nat);
        }
        let x = am.checked_mul(p);
        match x {
            None => {
                proof {
                    assert(am as int * p > bm);
                    assert(am as int * p * q > bm as int * q) by (nonlinear_arith)
                        requires
                            am as int * p > bm,
                            q >= 1,
                    ;
                    assert(am as int * (p * q) == am as int * p * q) by (nonlinear_arith);
                }
                1
            },
            Some(y) => {
                proof {
                    assert(am as int * (p * q) == am as int * p * q) by (nonlinear_arith);
                    assert(y > bm ==> y * q > bm as int * q) by (nonlinear_arith)
                        requires
                            q >= 1,
                    ;
                    assert(y < bm ==> y * q < bm as int * q) by (nonlinear_arith)
                        requires
                            q >= 1,
                    ;
                }
                if y < bm {
                    -1
                } else if y == bm {
                    0
                } else {
                    1
                }
            },
        }
    } else {
        let r = compare_magnitude(bm, bsc, am, asc);
        -r
    }
}

/// Compares two decimals as rational numbers: `-1`, `0` or `1` as `a` is
/// below, equal to or above `b`.
pub fn compare(a: &Decimal, b: &Decimal) -> (r: i8)
    ensures
        r == -1 <==> dec_lt(*a, *b),
        r == 0 <==> dec_eq(*a, *b),
        r == 1 <==> dec_lt(*b, *a),
{
    let an = a.negative && a.mantissa > 0;
    let bn = b.negative && b.mantissa > 0;
    let ghost ma = a.mantissa as int;
    let ghost mb = b.mantissa as int;
    let ghost da = a.den() as int;
    let ghost db = b.den() as int;
    proof {
        lemma_pow10_positive(a.scale as nat);
        lemma_pow10_positive(b.scale as nat);
        assert(a.num() * db == (if an { -(ma * db) } else { ma * db })) by (nonlinear_arith)
            requires
                a.num() == (if a.negative { -ma } else { ma }),
                an == (a.negative && ma > 0),
        ;
        assert(b.num() * da == (if bn { -(mb * da) } else { mb * da })) by (nonlinear_arith)
            requires
                b.num() == (if b.negative { -mb } else { mb }),
                bn == (b.negative && mb > 0),
        ;
        assert(ma * db >= 0 && mb * da >= 0) by (nonlinear_arith)
            requires
                ma >= 0,
                mb >= 0,
                da >= 1,
                db >= 1,
        ;
        assert(an ==> ma * db > 0) by (nonlinear_arith)
            requires
                an ==> ma > 0,
                db >= 1,
        ;
        assert(bn ==> mb * da > 0) by (nonlinear_arith)
            requires
                bn ==> mb > 0,
                da >= 1,
        ;
    }
    if an && bn {
        let m = compare_magnitude(a.mantissa, a.scale, b.mantissa, b.scale);
        -m
    } else if an {
        -1
    } else if bn {
        1
    } else {
        compare_magnitude(a.mantissa, a.scale, b.mantissa, b.scale)
    }
}

pub open spec fn is_digit(c: char) -> bool {
    '0' <= c && c <= '9'
}

pub open spec fn digit_value(c: char) -> nat {
    (c as int - '0' as int) as nat
}

/// Reads a run of digits with at most one decimal point: the value of all
/// its digits, how many of them follow the point, whether a point was seen,
/// and how many digits there are; `None` where another character occurs.
pub open spec fn scan_digits(s: Seq<char>) -> Option<(nat, nat, bool, nat)>
    decreases s.len(),
{
    if s.len() == 0 {
        Some((0, 0, false, 0))
    } else {
        match scan_digits(s.drop_last()) {
            None => None,
            Some((m, f, dot, n)) => {
                let c = s.last();
                if is_digit(c) {
                    Some((m * 10 + digit_value(c), if dot { f + 1 } else { f }, dot, n + 1))
                } else if c == '.' && !dot {
                    Some((m, f, true, n))
                } else {
                    None
                }
            },
        }
    }
}

/// The number a text without exponent spells: an optional sign, then digits
/// with at most one decimal point and at least one digit. `None` for any
/// other text, and where the digits exceed `u128` or their fractional part
/// `u32`.
pub open spec fn plain_decimal(t: Seq<char>) -> Option<Decimal> {
    let signed = t.len() > 0 && (t[0] == '-' || t[0] == '+');
    let body = if signed { t.drop_first() } else { t };
    match scan_digits(body) {
        Some((m, f, _, n)) => if n > 0 && m <= u128::MAX && f <= u32::MAX {
            Some(Decimal { negative: signed && t[0] == '-', mantissa: m as u128, scale: f as u32 })
        } else {
            None
        },
        None => None,
    }
}

/// A text that fails to scan fails with anything appended.
proof fn lemma_scan_fails_on_longer(s: Seq<char>, k: int)
    requires
        0 <= k <= s.len(),
        scan_digits(s.take(k)) is None,
    ensures
        scan_digits(s) is None,
    decreases s.len() - k,
{
    if k < s.len() {
        assert(s.take(k + 1).drop_last() =~= s.take(k));
        lemma_scan_fails_on_longer(s, k + 1);
    } else {
        assert(s.take(k) =~= s);
    }
}

impl Decimal {
    fn parse_plain(t: &str) -> (r: Option<Decimal>)
        ensures
            r == plain_decimal(t@),
    {
        let len = t.unicode_len();
        let mut start: usize = 0;
        let mut negative = false;
        if len > 0 {
            let c0 = t.get_char(0);
            if c0 == '-' || c0 == '+' {
                start = 1;
                negative = c0 == '-';
            }
        }
        let ghost body = t@.subrange(start as int, len as int);
        proof {
            let signed = t@.len() > 0 && (t@[0] == '-' || t@[0] == '+');
            assert(signed == (start == 1));
            if start == 1 {
                assert(body =~= t@.drop_first());
            } else {
                assert(body =~= t@);
            }
        }
        let mut m: u128 = 0;
        let mut over = false;
        let mut frac: usize = 0;
        let mut dot = false;
        let mut count: usize = 0;
        let mut i: usize = start;
        while i < len
            invariant
                len == t@.len(),
                start <= i <= len,
                body == t@.subrange(start as int, len as int),
                body == (if t@.len() > 0 && (t@[0] == '-' || t@[0] == '+') {
                    t@.drop_first()
                } else {
                    t@
                }),
                negative == (t@.len() > 0 && (t@[0] == '-' || t@[0] == '+') && t@[0] == '-'),
                ({
                    let pre = body.take(i - start);
                    match scan_digits(pre) {
                        Some((ms, fs, ds, ns)) => fs == frac && ds == dot && ns == count && (if over {
                            ms > u128::MAX
                        } else {
                            ms == m
                        }) && ns <= i - start && fs <= i - start,
                        None => false,
                    }
                }),
            decreases len - i,
        {
            let c = t.get_char(i);
            let ghost pre = body.take(i - start);
            let ghost next = body.take(i + 1 - start);
            proof {
                assert(next.drop_last() =~= pre);
                assert(next.last() == c);
            }
            if '0' <= c && c <= '9' {
                let d = (c as u32 - '0' as u32) as u128;
                if !over {
                    match m.checked_mul(10) {
                        Some(m10) => match m10.checked_add(d) {
                            Some(v) => {
                                m = v;
                            },
                            None => {
                                over = true;
                            },
                        },
                        None => {
                            over = true;
                        },
                    }
                }
                if dot {
                    frac = frac + 1;
                }
                count = count + 1;
            } else if c == '.' && !dot {
                dot = true;
            } else {
                proof {
                    assert(scan_digits(next) is None);
                    lemma_scan_fails_on_longer(body, i + 1 - start);
                    assert(scan_digits(body) is None);
                }
                return None;
            }
            i = i + 1;
        }
        proof {
            assert(body.take(len - start) =~= body);
        }
        if count > 0 && !over && frac <= u32::MAX as usize {
            Some(Decimal { negative, mantissa: m, scale: frac as u32 })
        } else {
            None
        }
    }
}

/// The position of the first `e` or `E`.
pub open spec fn first_exponent_mark(t: Seq<char>) -> Option<int>
    decreases t.len(),
{
    if t.len() == 0 {
        None
    } else if t[0] == 'e' || t[0] == 'E' {
        Some(0)
    } else {
        match first_exponent_mark(t.drop_first()) {
            Some(i) => Some(i + 1),
            None => None,
        }
    }
}

/// An exponent: an optional sign and at least one digit, no point.
pub open spec fn parse_exponent(s: Seq<char>) -> Option<int> {
    match plain_decimal(s) {
        Some(d) => if d.scale == 0 && !s.contains('.') {
            Some(d.num())
        } else {
            None
        },
        None => None,
    }
}

/// `d * 10^e`, where it can be held.
pub open spec fn with_exponent(d: Decimal, e: int) -> Option<Decimal> {
    let s = d.scale - e;
    if s >= 0 {
        if s <= u32::MAX {
            Some(Decimal { scale: s as u32, ..d })
        } else {
            None
        }
    } else if d.mantissa * pow10((-s) as nat) <= u128::MAX {
        Some(Decimal { mantissa: (d.mantissa * pow10((-s) as nat)) as u128, scale: 0, ..d })
    } else {
        None
    }
}

/// The number a text spells: a plain decimal (see `plain_decimal`),
/// optionally followed by `e` or `E` and an integer exponent.
#[verifier::opaque]
pub open spec fn parse_decimal(t: Seq<char>) -> Option<Decimal> {
    match first_exponent_mark(t) {
        None => plain_decimal(t),
        Some(i) => match plain_decimal(t.take(i)) {
            Some(d) => match parse_exponent(t.skip(i + 1)) {
                Some(e) => with_exponent(d, e),
                None => None,
            },
            None => None,
        },
    }
}

fn has_point(t: &str) -> (r: bool)
    ensures
        r == t@.contains('.'),
{
    let n = t.unicode_len();
    let mut i: usize = 0;
    while i < n
        invariant
            n == t@.len(),
            i <= n,
            forall|j: int| 0 <= j < i ==> t@[j] != '.',
        decreases n - i,
    {
        if t.get_char(i) == '.' {
            return true;
        }
        i = i + 1;
    }
    false
}

impl Decimal {
    /// Reads a decimal number from text; see `parse_decimal`.
    pub fn parse(t: &str) -> (r: Option<Decimal>)
        ensures
            r == parse_decimal(t@),
    {
        reveal(parse_decimal);
        let n = t.unicode_len();
        let mut i: usize = 0;
        assert(t@.skip(0) =~= t@);
        while i < n && t.get_char(i) != 'e' && t.get_char(i) != 'E'
            invariant
                n == t@.len(),
                i <= n,
                first_exponent_mark(t@) == (match first_exponent_mark(t@.skip(i as int)) {
                    Some(k) => Some(k + i),
                    None => None::<int>,
                }),
            decreases n - i,
        {
            assert(t@.skip(i as int).drop_first() =~= t@.skip(i + 1));
            assert(t@.skip(i as int)[0] == t@[i as int]);
            i = i + 1;
        }
        if i == n {
            assert(t@.skip(n as int).len() == 0);
            return Decimal::parse_plain(t);
        }
        assert(t@.skip(i as int)[0] == t@[i as int]);
        assert(first_exponent_mark(t@) == Some(i as int));
        let head = t.substring_char(0, i);
        assert(head@ =~= t@.take(i as int));
        let d = match Decimal::parse_plain(head) {
            Some(d) => d,
            None => {
                return None;
            },
        };
        let rest = t.substring_char(i + 1, n);
        assert(rest@ =~= t@.skip(i + 1));
        let e = match Decimal::parse_plain(rest) {
            Some(e) => e,
            None => {
                return None;
            },
        };
        if e.scale != 0 || has_point(rest) {
            return None;
        }
        if e.negative {
            if e.mantissa > (u32::MAX - d.scale) as u128 {
                return None;
            }
            Some(Decimal { scale: d.scale + e.mantissa as u32, ..d })
        } else if e.mantissa <= d.scale as u128 {
            Some(Decimal { scale: d.scale - e.mantissa as u32, ..d })
        } else {
            let k = e.mantissa - d.scale as u128;
            if d.mantissa == 0 {
                assert(d.mantissa * pow10(k as nat) == 0);
                return Some(Decimal { mantissa: 0, scale: 0, ..d });
            }
            if k > MAX_EXP10 as u128 {
                proof {
                    lemma_pow10_mono((MAX_EXP10 + 1) as nat, k as nat);
                    reveal_with_fuel(pow10, 40);
                    assert(d.mantissa * pow10(k as nat) >= pow10(k as nat)) by (nonlinear_arith)
                        requires
                            d.mantissa >= 1,
                    ;
                }
                return None;
            }
            let p = pow10_u128(k as u32);
            match d.mantissa.checked_mul(p) {
                Some(m) => Some(Decimal { mantissa: m, scale: 0, ..d }),
                None => None,
            }
        }
    }
}

/// `f64::EPSILON`, 2^-52, is exactly `EPS_MANTISSA / 10^EPS_SCALE`.
pub const EPS_MANTISSA: u128 = 2220446049250313080847263336181640625;

pub const EPS_SCALE: u32 = 52;

pub open spec fn abs_int(x: int) -> int {
    if x < 0 {
        -x
    } else {
        x
    }
}

/// `|a - b| < 2^-52`, the tolerance of `f64::EPSILON`, as rational numbers.
pub open spec fn dec_near(a: Decimal, b: Decimal) -> bool {
    abs_int(a.num() * b.den() - b.num() * a.den()) * pow10(EPS_SCALE as nat) < EPS_MANTISSA * (
    a.den() * b.den())
}

/// Whether two decimals differ by less than `f64::EPSILON`; decided exactly.
pub fn near(a: &Decimal, b: &Decimal) -> (r: bool)
    ensures
        r == dec_near(*a, *b),
{
    let an = a.negative && a.mantissa > 0;
    let bn = b.negative && b.mantissa > 0;
    let x = big_scaled(a.mantissa, b.scale as u64 + EPS_SCALE as u64);
    let y = big_scaled(b.mantissa, a.scale as u64 + EPS_SCALE as u64);
    let t = big_scaled(EPS_MANTISSA, a.scale as u64 + b.scale as u64);
    let ghost bx = big_value(x@) as int;
    let ghost by_ = big_value(y@) as int;
    let ghost bt = big_value(t@) as int;
    proof {
        let sa = a.scale as nat;
        let sb = b.scale as nat;
        let p = pow10(EPS_SCALE as nat);
        let da = a.den() as int;
        let db = b.den() as int;
        let ma = a.mantissa as int;
        let mb = b.mantissa as int;
        let na = a.num();
        let nb = b.num();
        lemma_pow10_add(sb, EPS_SCALE as nat);
        lemma_pow10_add(sa, EPS_SCALE as nat);
        lemma_pow10_add(sa, sb);
        lemma_pow10_positive(EPS_SCALE as nat);
        assert((b.scale as u64 + EPS_SCALE as u64) as nat == sb + EPS_SCALE as nat);
        assert((a.scale as u64 + EPS_SCALE as u64) as nat == sa + EPS_SCALE as nat);
        assert((a.scale as u64 + b.scale as u64) as nat == sa + sb);
        assert(bx == ma * (db * p));
        assert(by_ == mb * (da * p));
        assert(bt == EPS_MANTISSA * (da * db));
        assert(ma * db * p == ma * (db * p)) by (nonlinear_arith);
        assert(mb * da * p == mb * (da * p)) by (nonlinear_arith);
        assert((-ma) * db * p == -(ma * db * p)) by (nonlinear_arith);
        assert((-mb) * da * p == -(mb * da * p)) by (nonlinear_arith);
        assert(na == (if an { -ma } else { ma }));
        assert(nb == (if bn { -mb } else { mb }));
        assert(na * db * p == (if an { -bx } else { bx }));
        assert(nb * da * p == (if bn { -by_ } else { by_ }));
        let d = na * db - nb * da;
        assert(d * p == na * db * p - nb * da * p) by (nonlinear_arith)
            requires
                d == na * db - nb * da,
        ;
        assert(abs_int(d) * p == abs_int(d * p)) by (nonlinear_arith)
            requires
                p > 0,
        ;
        assert(bx >= 0 && by_ >= 0);
    }
    if an == bn {
        let yt = big_add(&y, &t);
        let xt = big_add(&x, &t);
        big_less(&x, &yt) && big_less(&y, &xt)
    } else {
        let xy = big_add(&x, &y);
        big_less(&xy, &t)
    }
}

} // verus!
