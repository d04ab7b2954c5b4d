use vstd::prelude::*;

verus! {

/// The product `k * d`.
pub open spec fn times(k: int, d: int) -> int {
    k * d
}

/// `d` divides `m`.
pub open spec fn dvd(d: int, m: int) -> bool {
    exists|k: int| #[trigger] times(k, d) == m
}

/// Greatest common divisor, by Euclid's recursion.
pub open spec fn gcd(a: nat, b: nat) -> nat
    decreases b,
{
    if b == 0 {
        a
    } else {
        gcd(b, a % b)
    }
}

/// Least common multiple of two positive numbers.
pub open spec fn lcm(a: nat, b: nat) -> nat {
    if a == 0 || b == 0 {
        0
    } else {
        a * b / gcd(a, b)
    }
}

/// Least common multiple of a sequence, folded from the left (1 for none).
pub open spec fn lcm_all(s: Seq<nat>) -> nat
    decreases s.len(),
{
    if s.len() == 0 {
        1
    } else {
        lcm(lcm_all(s.drop_last()), s.last())
    }
}

/// Every element of `s` is positive.
pub open spec fn all_positive(s: Seq<nat>) -> bool {
    forall|i: int| 0 <= i < s.len() ==> s[i] > 0
}

/// `m` is a positive multiple of every element of `s`.
pub open spec fn is_common_multiple(m: nat, s: Seq<nat>) -> bool {
    m > 0 && forall|i: int| 0 <= i < s.len() ==> dvd(s[i] as int, m as int)
}

pub proof fn lemma_dvd_mod(d: nat, m: nat)
    requires
        d > 0,
    ensures
        dvd(d as int, m as int) <==> m % d == 0,
{
    if m % d == 0 {
        vstd::arithmetic::div_mod::lemma_fundamental_div_mod(m as int, d as int);
        assert(((m / d) as int) * d == m) by (nonlinear_arith)
            requires
                m == d * (m / d) + m % d,
                m % d == 0,
        ;
        assert(times((m / d) as int, d as int) == m);
    }
    if dvd(d as int, m as int) {
        let k = choose|k: int| times(k, d as int) == m;
        vstd::arithmetic::div_mod::lemma_mod_multiples_basic(k, d as int);
        assert(k * d == m);
    }
}

pub proof fn lemma_dvd_trans(a: int, b: int, c: int)
    requires
        dvd(a, b),
        dvd(b, c),
    ensures
        dvd(a, c),
{
    let k1 = choose|k: int| times(k, a) == b;
    let k2 = choose|k: int| times(k, b) == c;
    assert((k2 * k1) * a == c) by (nonlinear_arith)
        requires
            k1 * a == b,
            k2 * b == c,
    ;
    assert(times(k2 * k1, a) == c);
}

/// A positive multiple of a positive number is at least that number.
pub proof fn lemma_dvd_le(d: int, m: int)
    requires
        d > 0,
        m > 0,
        dvd(d, m),
    ensures
        d <= m,
{
    let k = choose|k: int| times(k, d) == m;
    assert(d <= m) by (nonlinear_arith)
        requires
            k * d == m,
            d > 0,
            m > 0,
    ;
}

/// Bezout coefficients for `gcd(a, b)`.
pub proof fn lemma_bezout(a: nat, b: nat) -> (r: (int, int))
    ensures
        r.0 * a + r.1 * b == gcd(a, b),
    decreases b,
{
    if b == 0 {
        (1, 0)
    } else {
        let (x, y) = lemma_bezout(b, a % b);
        vstd::arithmetic::div_mod::lemma_fundamental_div_mod(a as int, b as int);
        let q = (a / b) as int;
        assert(y * a + (x - y * q) * b == gcd(a, b)) by (nonlinear_arith)
            requires
                x * b + y * (a % b) == gcd(b, a % b),
                gcd(a, b) == gcd(b, a % b),
                a == b * q + a % b,
        ;
        (y, x - y * q)
    }
}

/// `gcd(a, b)` divides both arguments, and is positive when `a` is.
pub proof fn lemma_gcd_divides(a: nat, b: nat)
    ensures
        dvd(gcd(a, b) as int, a as int),
        dvd(gcd(a, b) as int, b as int),
        a > 0 ==> gcd(a, b) > 0,
    decreases b,
{
    if b == 0 {
        assert(times(1, a as int) == a);
        assert(times(0, gcd(a, b) as int) == 0);
    } else {
        lemma_gcd_divides(b, a % b);
        let g = gcd(a, b) as int;
        let kb = choose|k: int| times(k, g) == b as int;
        let kr = choose|k: int| times(k, g) == (a % b) as int;
        vstd::arithmetic::div_mod::lemma_fundamental_div_mod(a as int, b as int);
        let q = (a / b) as int;
        assert((q * kb + kr) * g == a) by (nonlinear_arith)
            requires
                kb * g == b,
                kr * g == a % b,
                a == b * q + a % b,
        ;
        assert(times(q * kb + kr, g) == a);
        if a > 0 {
            assert(b > 0);
            if g == 0 {
                assert(kb * g == 0) by (nonlinear_arith)
                    requires
                        g == 0,
                ;
            }
        }
    }
}

/// The two-argument `lcm` is a positive common multiple that divides every common multiple.
pub proof fn lemma_lcm(a: nat, b: nat)
    requires
        a > 0,
        b > 0,
    ensures
        lcm(a, b) > 0,
        dvd(a as int, lcm(a, b) as int),
        dvd(b as int, lcm(a, b) as int),
        forall|m: int| dvd(a as int, m) && dvd(b as int, m) ==> dvd(lcm(a, b) as int, m),
        (lcm(a, b) * gcd(a, b)) as int == a * b,
{
    lemma_gcd_divides(a, b);
    let g = gcd(a, b) as int;
    let ka = choose|k: int| times(k, g) == a as int;
    let kb = choose|k: int| times(k, g) == b as int;
    let p = (a * b) as int;
    assert(p == (ka * kb * g) * g) by (nonlinear_arith)
        requires
            ka * g == a,
            kb * g == b,
            p == a * b,
    ;
    vstd::arithmetic::div_mod::lemma_div_multiples_vanish(ka * kb * g, g);
    let l = ka * kb * g;
    assert(lcm(a, b) == l);
    assert(l > 0 && kb * a == l && ka * b == l) by (nonlinear_arith)
        requires
            ka * g == a,
            kb * g == b,
            a > 0,
            b > 0,
            g > 0,
            l == ka * kb * g,
    ;
    assert(times(kb, a as int) == l);
    assert(times(ka, b as int) == l);
    assert(l * g == p) by (nonlinear_arith)
        requires
            p == (ka * kb * g) * g,
            l == ka * kb * g,
    ;
    let (x, y) = lemma_bezout(a, b);
    assert forall|m: int| dvd(a as int, m) && dvd(b as int, m) implies dvd(l, m) by {
        let s = choose|k: int| times(k, a as int) == m;
        let t = choose|k: int| times(k, b as int) == m;
        let w = x * t + y * s;
        assert(w * l == m) by (nonlinear_arith)
            requires
                s * a == m,
                t * b == m,
                x * a + y * b == g,
                l * g == a * b,
                g > 0,
                w == x * t + y * s,
        ;
        assert(times(w, l) == m);
    }
}

/// `lcm_all` is the least common multiple: a common multiple that divides all others.
pub proof fn lemma_lcm_all(s: Seq<nat>)
    requires
        all_positive(s),
    ensures
        is_common_multiple(lcm_all(s), s),
        forall|m: int| (forall|i: int| 0 <= i < s.len() ==> dvd(s[i] as int, m)) ==> dvd(
            lcm_all(s) as int,
            m,
        ),
    decreases s.len(),
{
    if s.len() == 0 {
        assert forall|m: int| true implies dvd(lcm_all(s) as int, m) by {
            assert(times(m, 1) == m);
        }
    } else {
        let p = s.drop_last();
        lemma_lcm_all(p);
        let lp = lcm_all(p);
        lemma_lcm(lp, s.last());
        let l = lcm_all(s);
        assert forall|i: int| 0 <= i < s.len() implies dvd(s[i] as int, l as int) by {
            if i < s.len() - 1 {
                assert(p[i] == s[i]);
                lemma_dvd_trans(s[i] as int, lp as int, l as int);
            }
        }
        assert forall|m: int|
            (forall|i: int| 0 <= i < s.len() ==> dvd(s[i] as int, m)) implies dvd(
            l as int,
            m,
        ) by {
            assert forall|i: int| 0 <= i < p.len() implies dvd(p[i] as int, m) by {
                assert(p[i] == s[i]);
            }
            assert(dvd(s.last() as int, m));
        }
    }
}

/// The least common multiple of a prefix divides that of the whole sequence.
pub proof fn lemma_lcm_prefix(s: Seq<nat>, n: int)
    requires
        all_positive(s),
        0 <= n <= s.len(),
    ensures
        dvd(lcm_all(s.take(n)) as int, lcm_all(s) as int),
        lcm_all(s.take(n)) <= lcm_all(s),
{
    let t = s.take(n);
    lemma_lcm_all(s);
    lemma_lcm_all(t);
    assert forall|i: int| 0 <= i < t.len() implies dvd(t[i] as int, lcm_all(s) as int) by {
        assert(t[i] == s[i]);
    }
    lemma_dvd_le(lcm_all(t) as int, lcm_all(s) as int);
}

/// Euclid's algorithm.
pub fn gcd_u64(a: u64, b: u64) -> (r: u64)
    ensures
        r == gcd(a as nat, b as nat),
{
    let mut x: u64 = a;
    let mut y: u64 = b;
    while y != 0
        invariant
            gcd(x as nat, y as nat) == gcd(a as nat, b as nat),
        decreases y,
    {
        let t: u64 = x % y;
        x = y;
        y = t;
    }
    x
}

/// The least common multiple of `values`, or `None` when it exceeds `limit`.
pub fn lcm_within(values: &Vec<u64>, limit: u64) -> (r: Option<u64>)
    requires
        forall|i: int| 0 <= i < values@.len() ==> values@[i] > 0,
    ensures
        match r {
            Some(l) => l as nat == lcm_all(values@.map_values(|v: u64| v as nat)) && l <= limit,
            None => lcm_all(values@.map_values(|v: u64| v as nat)) > limit,
        },
{
    let ghost s = values@.map_values(|v: u64| v as nat);
    assert(all_positive(s));
    let mut acc: u64 = 1;
    if limit == 0 {
        proof {
            lemma_lcm_all(s);
        }
        return None;
    }
    let mut i: usize = 0;
    assert(s.take(0) =~= Seq::<nat>::empty());
    while i < values.len()
        invariant
            s == values@.map_values(|v: u64| v as nat),
            all_positive(s),
            0 <= i <= values@.len(),
            acc as nat == lcm_all(s.take(i as int)),
            acc <= limit,
        decreases values@.len() - i,
    {
        let v = values[i];
        let ghost t = s.take(i as int + 1);
        assert(t.drop_last() =~= s.take(i as int));
        assert(t.last() == v as nat);
        proof {
            lemma_lcm_prefix(s, i as int);
            lemma_lcm_all(s.take(i as int));
            lemma_lcm(acc as nat, v as nat);
        }
        let g = gcd_u64(acc, v);
        proof {
            lemma_gcd_divides(acc as nat, v as nat);
        }
        let ghost ka = choose|k: int| times(k, g as int) == acc as int;
        proof {
            vstd::arithmetic::div_mod::lemma_div_multiples_vanish(ka, g as int);
            assert((acc as nat) * (v as nat) == (ka * v) * g) by (nonlinear_arith)
                requires
                    ka * g == acc,
            ;
            vstd::arithmetic::div_mod::lemma_div_multiples_vanish(ka * v, g as int);
            assert(acc / g <= acc) by (nonlinear_arith)
                requires
                    g > 0,
            ;
        }
        let q: u64 = acc / g;
        assert((q as int) * (v as int) <= 0xffff_ffff_ffff_ffffint * 0xffff_ffff_ffff_ffffint)
            by (nonlinear_arith)
            requires
                0 <= q <= 0xffff_ffff_ffff_ffffint,
                0 <= v <= 0xffff_ffff_ffff_ffffint,
        ;
        let prod: u128 = q as u128 * v as u128;
        assert(prod as nat == lcm(acc as nat, v as nat));
        if prod > limit as u128 {
            proof {
                lemma_lcm_prefix(s, i as int + 1);
            }
            return None;
        }
        acc = prod as u64;
        i = i + 1;
    }
    assert(s.take(values@.len() as int) =~= s);
    Some(acc)
}

} // verus!
