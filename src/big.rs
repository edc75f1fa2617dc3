use vstd::prelude::*;
use crate::number::{pow10, lemma_pow10_positive};

verus! {

/// The number that decimal digits spell, least significant digit first.
pub open spec fn big_value(s: Seq<u8>) -> nat
    decreases s.len(),
{
    if s.len() == 0 {
        0
    } else {
        s[0] as nat + 10 * big_value(s.drop_first())
    }
}

pub open spec fn digits_ok(s: Seq<u8>) -> bool {
    forall|i: int| 0 <= i < s.len() ==> s[i] < 10
}

pub open spec fn digit_at(s: Seq<u8>, i: int) -> nat {
    if 0 <= i < s.len() {
        s[i] as nat
    } else {
        0
    }
}

/// The value of the digits from position `i` up.
pub open spec fn upper(s: Seq<u8>, i: nat) -> nat {
    if i >= s.len() {
        0
    } else {
        big_value(s.subrange(i as int, s.len() as int))
    }
}

/// The value of the digits below position `i`.
pub open spec fn lower(s: Seq<u8>, i: nat) -> nat
    decreases i,
{
    if i == 0 {
        0
    } else {
        lower(s, (i - 1) as nat) + digit_at(s, i - 1) * pow10((i - 1) as nat)
    }
}

proof fn lemma_upper_step(s: Seq<u8>, i: nat)
    ensures
        upper(s, i) == digit_at(s, i as int) + 10 * upper(s, i + 1),
{
    if i < s.len() {
        let t = s.subrange(i as int, s.len() as int);
        assert(t.drop_first() =~= s.subrange((i + 1) as int, s.len() as int));
        assert(big_value(t) == t[0] as nat + 10 * big_value(t.drop_first()));
        assert(t[0] == s[i as int]);
        if i + 1 == s.len() {
            assert(t.drop_first().len() == 0);
            assert(big_value(t.drop_first()) == 0);
        }
    }
}

proof fn lemma_split(s: Seq<u8>, i: nat)
    requires
        digits_ok(s),
    ensures
        big_value(s) == lower(s, i) + pow10(i) * upper(s, i),
        lower(s, i) < pow10(i),
    decreases i,
{
    if i == 0 {
        assert(pow10(0) == 1);
        if s.len() > 0 {
            assert(s.subrange(0, s.len() as int) =~= s);
        } else {
            assert(big_value(s) == 0);
        }
    } else {
        let j = (i - 1) as nat;
        lemma_split(s, j);
        lemma_upper_step(s, j);
        let l = lower(s, j);
        let p = pow10(j);
        let d = digit_at(s, j as int);
        let u = upper(s, i);
        assert(pow10(i) == 10 * p);
        assert(d < 10);
        assert(p * (d + 10 * u) == d * p + (10 * p) * u) by (nonlinear_arith);
        assert(lower(s, i) == l + d * p);
        assert(upper(s, j) == d + 10 * u);
        assert(big_value(s) == l + p * (d + 10 * u));
        assert(l + d * p < 10 * p) by (nonlinear_arith)
            requires
                l < p,
                d <= 9,
        ;
    }
}

proof fn lemma_lower_prefix(s: Seq<u8>, t: Seq<u8>, i: nat)
    requires
        i <= s.len(),
        i <= t.len(),
        s.take(i as int) == t.take(i as int),
    ensures
        lower(s, i) == lower(t, i),
    decreases i,
{
    if i > 0 {
        assert(s.take(i - 1) =~= s.take(i as int).take(i - 1));
        assert(t.take(i - 1) =~= t.take(i as int).take(i - 1));
        assert(s[i - 1] == s.take(i as int)[i - 1]);
        assert(t[i - 1] == t.take(i as int)[i - 1]);
        lemma_lower_prefix(s, t, (i - 1) as nat);
    }
}

/// `big_value(a) < big_value(b)`.
pub fn big_less(a: &Vec<u8>, b: &Vec<u8>) -> (r: bool)
    requires
        digits_ok(a@),
        digits_ok(b@),
    ensures
        r == (big_value(a@) < big_value(b@)),
{
    let n = if a.len() > b.len() {
        a.len()
    } else {
        b.len()
    };
    let mut i: usize = n;
    while i > 0
        invariant
            i <= n,
            n >= a.len(),
            n >= b.len(),
            digits_ok(a@),
            digits_ok(b@),
            upper(a@, i as nat) == upper(b@, i as nat),
        decreases i,
    {
        let da: u8 = if i - 1 < a.len() {
            a[i - 1]
        } else {
            0
        };
        let db: u8 = if i - 1 < b.len() {
            b[i - 1]
        } else {
            0
        };
        proof {
            lemma_upper_step(a@, (i - 1) as nat);
            lemma_upper_step(b@, (i - 1) as nat);
        }
        if da != db {
            proof {
                let j = (i - 1) as nat;
                lemma_split(a@, j);
                lemma_split(b@, j);
                lemma_pow10_positive(j);
                let p = pow10(j);
                let ua = upper(a@, j);
                let ub = upper(b@, j);
                let la = lower(a@, j);
                let lb = lower(b@, j);
                if da < db {
                    assert(ua + 1 <= ub);
                    assert(la + p * ua < p * ub) by (nonlinear_arith)
                        requires
                            la < p,
                            ua + 1 <= ub,
                    ;
                } else {
                    assert(ub + 1 <= ua);
                    assert(lb + p * ub < p * ua) by (nonlinear_arith)
                        requires
                            lb < p,
                            ub + 1 <= ua,
                    ;
                }
            }
            return da < db;
        }
        i = i - 1;
    }
    proof {
        lemma_split(a@, 0);
        lemma_split(b@, 0);
    }
    false
}

/// `big_value(a) + big_value(b)`.
#[verifier::spinoff_prover]
pub fn big_add(a: &Vec<u8>, b: &Vec<u8>) -> (r: Vec<u8>)
    requires
        digits_ok(a@),
        digits_ok(b@),
    ensures
        digits_ok(r@),
        big_value(r@) == big_value(a@) + big_value(b@),
{
    let n = if a.len() > b.len() {
        a.len()
    } else {
        b.len()
    };
    let mut r: Vec<u8> = Vec::new();
    let mut carry: u8 = 0;
    let mut i: usize = 0;
    while i < n
        invariant
            i <= n,
            n >= a.len(),
            n >= b.len(),
            r.len() == i,
            carry <= 1,
            digits_ok(r@),
            digits_ok(a@),
            digits_ok(b@),
            lower(a@, i as nat) + lower(b@, i as nat) == lower(r@, i as nat) + carry * pow10(
                i as nat,
            ),
        decreases n - i,
    {
        let da: u8 = if i < a.len() {
            a[i]
        } else {
            0
        };
        let db: u8 = if i < b.len() {
            b[i]
        } else {
            0
        };
        let s: u8 = da + db + carry;
        let ghost old_r = r@;
        r.push(s % 10);
        let ghost c = carry as nat;
        carry = s / 10;
        proof {
            assert(r@.take(i as int) =~= old_r.take(i as int));
            lemma_lower_prefix(r@, old_r, i as nat);
            assert(digit_at(r@, i as int) == (s % 10) as nat);
            assert(digit_at(a@, i as int) == da as nat);
            assert(digit_at(b@, i as int) == db as nat);
            let p = pow10(i as nat);
            assert(lower(a@, (i + 1) as nat) == lower(a@, i as nat) + (da as nat) * p);
            assert(lower(b@, (i + 1) as nat) == lower(b@, i as nat) + (db as nat) * p);
            assert(lower(r@, (i + 1) as nat) == lower(r@, i as nat) + ((s % 10) as nat) * p);
            assert(pow10((i + 1) as nat) == 10 * p);
            assert(s as nat == (s % 10) as nat + 10 * (carry as nat));
            assert((da as nat + db as nat + c) * p == (s % 10) as nat * p + (carry as nat) * (10
                * p)) by (nonlinear_arith)
                requires
                    s as nat == da as nat + db as nat + c,
                    s as nat == (s % 10) as nat + 10 * (carry as nat),
            ;
            assert((da as nat) * p + (db as nat) * p + c * p == (da as nat + db as nat + c) * p)
                by (nonlinear_arith);
            assert(lower(old_r, i as nat) + c * p == lower(a@, i as nat) + lower(b@, i as nat));
        }
        i = i + 1;
    }
    let ghost before = r@;
    if carry > 0 {
        r.push(carry);
        proof {
            assert(r@.take(n as int) =~= before.take(n as int));
            lemma_lower_prefix(r@, before, n as nat);
        }
    }
    proof {
        lemma_split(a@, n as nat);
        lemma_split(b@, n as nat);
        lemma_split(r@, r.len() as nat);
        lemma_split(before, n as nat);
        assert(upper(a@, n as nat) == 0);
        assert(upper(b@, n as nat) == 0);
        assert(upper(r@, r.len() as nat) == 0);
        assert(upper(before, n as nat) == 0);
        assert(pow10(n as nat) * 0 == 0);
        assert(big_value(a@) == lower(a@, n as nat));
        assert(big_value(b@) == lower(b@, n as nat));
        if carry > 0 {
            assert(digit_at(r@, n as int) == 1);
            assert(lower(r@, (n + 1) as nat) == lower(r@, n as nat) + pow10(n as nat));
            assert(pow10((n + 1) as nat) * 0 == 0);
            assert(big_value(r@) == lower(r@, (n + 1) as nat));
            assert(lower(r@, n as nat) == lower(before, n as nat));
        } else {
            assert(r@ == before);
            assert(big_value(r@) == lower(r@, n as nat));
        }
    }
    r
}

/// The decimal digits of `m`.
pub fn big_from(m: u128) -> (r: Vec<u8>)
    ensures
        digits_ok(r@),
        big_value(r@) == m,
{
    let mut r: Vec<u8> = Vec::new();
    let mut x: u128 = m;
    assert(pow10(0) == 1);
    assert(r.len() == 0);
    assert(lower(r@, r.len() as nat) == 0);
    assert(pow10(r.len() as nat) * x == x);
    while x > 0
        invariant
            digits_ok(r@),
            m == lower(r@, r.len() as nat) + pow10(r.len() as nat) * x,
        decreases x,
    {
        let ghost old_r = r@;
        let ghost i = r.len() as nat;
        let ghost ox = x;
        r.push((x % 10) as u8);
        x = x / 10;
        proof {
            assert(r@.take(i as int) =~= old_r.take(i as int));
            lemma_lower_prefix(r@, old_r, i);
            let p = pow10(i);
            assert(pow10(i + 1) == 10 * p);
            assert(digit_at(r@, i as int) == (ox % 10) as nat);
            assert(lower(r@, i + 1) == lower(r@, i) + ((ox % 10) as nat) * p);
            assert(p * ox == (ox % 10) as nat * p + (10 * p) * x) by (nonlinear_arith)
                requires
                    ox == (ox % 10) + 10 * x,
            ;
        }
    }
    proof {
        lemma_split(r@, r.len() as nat);
        assert(upper(r@, r.len() as nat) == 0);
    }
    r
}

proof fn lemma_shift(v: Seq<u8>, k: nat)
    ensures
        big_value(Seq::new(k, |i: int| 0u8) + v) == pow10(k) * big_value(v),
    decreases k,
{
    if k > 0 {
        let z = Seq::new(k, |i: int| 0u8) + v;
        assert(z.drop_first() =~= Seq::new((k - 1) as nat, |i: int| 0u8) + v);
        assert(z[0] == 0);
        assert(big_value(z) == z[0] as nat + 10 * big_value(z.drop_first()));
        lemma_shift(v, (k - 1) as nat);
        assert(pow10(k) == 10 * pow10((k - 1) as nat));
        assert(10 * (pow10((k - 1) as nat) * big_value(v)) == (10 * pow10((k - 1) as nat))
            * big_value(v)) by (nonlinear_arith);
    } else {
        assert(Seq::new(0, |i: int| 0u8) + v =~= v);
        assert(pow10(0) == 1);
    }
}

/// `m * 10^k` as digits.
pub fn big_scaled(m: u128, k: u64) -> (r: Vec<u8>)
    ensures
        digits_ok(r@),
        big_value(r@) == m * pow10(k as nat),
{
    let v = big_from(m);
    let mut r: Vec<u8> = Vec::new();
    let mut i: u64 = 0;
    while i < k
        invariant
            i <= k,
            r@ == Seq::new(i as nat, |j: int| 0u8),
        decreases k - i,
    {
        r.push(0);
        i = i + 1;
        assert(r@ =~= Seq::new(i as nat, |j: int| 0u8));
    }
    let mut j: usize = 0;
    while j < v.len()
        invariant
            j <= v.len(),
            r@ == Seq::new(k as nat, |t: int| 0u8) + v@.take(j as int),
        decreases v.len() - j,
    {
        r.push(v[j]);
        j = j + 1;
        assert(r@ =~= Seq::new(k as nat, |t: int| 0u8) + v@.take(j as int));
    }
    proof {
        assert(v@.take(v.len() as int) =~= v@);
        assert(r@ =~= Seq::new(k as nat, |t: int| 0u8) + v@);
        assert(digits_ok(r@));
        lemma_shift(v@, k as nat);
        assert(big_value(v@) * pow10(k as nat) == pow10(k as nat) * big_value(v@)) by (nonlinear_arith);
    }
    r
}

} // verus!
