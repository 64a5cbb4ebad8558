use vstd::prelude::*;
use vstd::arithmetic::div_mod::lemma_fundamental_div_mod;

verus! {

/// `x` raised to the natural power `n`.
pub open spec fn power(x: int, n: nat) -> int
    decreases n,
{
    if n == 0 {
        1
    } else {
        x * power(x, (n - 1) as nat)
    }
}

/// With `x = c * (a / 255)^(1 / 2.2)`, the premultiplied value of channel `c` under
/// alpha `a` in a gamma 2.2 space, this holds when `v - 1/2 <= x`.
/// Since `1 / 2.2 == 5 / 11`, raising both sides to the 11th power gives
/// `(2v - 1)^11 * 255^5 <= (2c)^11 * a^5`.
pub open spec fn half_step_reached(v: int, c: int, a: int) -> bool {
    power(2 * v - 1, 11) * power(255, 5) <= power(2 * c, 11) * power(a, 5)
}

/// The largest `w` in `1..=v` with `w - 1/2 <= x`, or 0 when there is none.
pub open spec fn largest_reached(c: int, a: int, v: int) -> int
    decreases v,
{
    if v <= 0 {
        0
    } else if half_step_reached(v, c, a) {
        v
    } else {
        largest_reached(c, a, v - 1)
    }
}

/// `round(((c / 255)^2.2 * (a / 255))^(1 / 2.2) * 255)`: the channel value `c`
/// premultiplied by alpha `a` in a gamma 2.2 space, rounded to the nearest integer.
pub open spec fn premultiplied_channel(c: int, a: int) -> int {
    largest_reached(c, a, 255)
}

/// The byte at `i` of an RGBA8 buffer after premultiplication: alpha bytes stay,
/// each color byte is premultiplied by the alpha byte of its pixel.
pub open spec fn premultiplied_byte(p: Seq<u8>, i: int) -> u8 {
    let base = i - i % 4;
    if i % 4 == 3 || base + 3 >= p.len() {
        p[i]
    } else {
        premultiplied_channel(p[i] as int, p[base + 3] as int) as u8
    }
}

/// An RGBA8 buffer with every pixel premultiplied.
pub open spec fn premultiplied_pixels(p: Seq<u8>) -> Seq<u8> {
    Seq::new(p.len(), |i: int| premultiplied_byte(p, i))
}

proof fn lemma_power_nonneg(x: int, n: nat)
    requires
        x >= 0,
    ensures
        power(x, n) >= 0,
        x > 0 ==> power(x, n) > 0,
    decreases n,
{
    if n > 0 {
        lemma_power_nonneg(x, (n - 1) as nat);
        let p = power(x, (n - 1) as nat);
        assert(x * p >= 0) by (nonlinear_arith)
            requires
                x >= 0,
                p >= 0,
        ;
        if x > 0 {
            assert(x * p > 0) by (nonlinear_arith)
                requires
                    x > 0,
                    p > 0,
            ;
        }
    }
}

proof fn lemma_power_monotone(x: int, y: int, n: nat)
    requires
        0 <= x <= y,
    ensures
        power(x, n) <= power(y, n),
        x < y && n > 0 ==> power(x, n) < power(y, n),
    decreases n,
{
    if n > 0 {
        let m = (n - 1) as nat;
        lemma_power_monotone(x, y, m);
        lemma_power_nonneg(x, m);
        lemma_power_nonneg(y, m);
        let px = power(x, m);
        let py = power(y, m);
        assert(x * px <= y * py) by (nonlinear_arith)
            requires
                0 <= x <= y,
                0 <= px <= py,
        ;
        if x < y {
            lemma_power_nonneg(y, m);
            assert(x * px < y * py) by (nonlinear_arith)
                requires
                    0 <= x < y,
                    0 <= px <= py,
                    py > 0,
            ;
        }
    }
}

proof fn lemma_power_grows_with_exponent(x: int, m: nat, n: nat)
    requires
        x >= 1,
        m <= n,
    ensures
        power(x, m) <= power(x, n),
    decreases n - m,
{
    if m < n {
        lemma_power_grows_with_exponent(x, m, (n - 1) as nat);
        lemma_power_nonneg(x, (n - 1) as nat);
        let p = power(x, (n - 1) as nat);
        assert(p <= x * p) by (nonlinear_arith)
            requires
                x >= 1,
                p >= 0,
        ;
    }
}

proof fn lemma_power_adds(x: int, m: nat, n: nat)
    ensures
        power(x, m + n) == power(x, m) * power(x, n),
    decreases m,
{
    if m > 0 {
        lemma_power_adds(x, (m - 1) as nat, n);
        assert(power(x, m + n) == x * power(x, (m - 1 + n) as nat));
        let a = power(x, (m - 1) as nat);
        let b = power(x, n);
        assert(x * (a * b) == (x * a) * b) by (nonlinear_arith);
    }
}

/// A smaller step stays reached: `u - 1/2 <= w - 1/2 <= x`.
proof fn lemma_reached_downward(u: int, w: int, c: int, a: int)
    requires
        1 <= u <= w,
        0 <= a,
        half_step_reached(w, c, a),
    ensures
        half_step_reached(u, c, a),
{
    lemma_power_monotone(2 * u - 1, 2 * w - 1, 11);
    lemma_power_nonneg(255, 5);
    let k = power(255, 5);
    let pu = power(2 * u - 1, 11);
    let pw = power(2 * w - 1, 11);
    assert(pu * k <= pw * k) by (nonlinear_arith)
        requires
            pu <= pw,
            k >= 0,
    ;
}

/// A larger channel keeps every step that a smaller one reached.
proof fn lemma_reached_grows_with_channel(v: int, c: int, a: int)
    requires
        0 <= c,
        0 <= a,
        half_step_reached(v, c, a),
    ensures
        half_step_reached(v, c + 1, a),
{
    lemma_power_monotone(2 * c, 2 * c + 2, 11);
    lemma_power_nonneg(a, 5);
    let k = power(a, 5);
    let p = power(2 * c, 11);
    let q = power(2 * c + 2, 11);
    assert(p * k <= q * k) by (nonlinear_arith)
        requires
            p <= q,
            k >= 0,
    ;
}

/// `largest_reached` stands at `v` when `v` is reached (or 0) and `v + 1` is not.
proof fn lemma_largest_reached_is(c: int, a: int, v: int, top: int)
    requires
        0 <= v <= top,
        0 <= a,
        v == 0 || half_step_reached(v, c, a),
        forall|w: int| v < w <= top ==> !half_step_reached(w, c, a),
    ensures
        largest_reached(c, a, top) == v,
    decreases top,
{
    if top > v {
        lemma_largest_reached_is(c, a, v, top - 1);
    }
}

/// The rounded value is pinned by two steps: `v` is reached (or is 0), and `v + 1`
/// is not (or `v` is 255).
proof fn lemma_premultiplied_is(c: int, a: int, v: int)
    requires
        0 <= v <= 255,
        0 <= a,
        v == 0 || half_step_reached(v, c, a),
        v == 255 || !half_step_reached(v + 1, c, a),
    ensures
        premultiplied_channel(c, a) == v,
{
    assert forall|w: int| v < w <= 255 implies !half_step_reached(w, c, a) by {
        if half_step_reached(w, c, a) {
            lemma_reached_downward(v + 1, w, c, a);
        }
    }
    lemma_largest_reached_is(c, a, v, 255);
}

/// Premultiplication leaves a fully opaque channel as it is and clears a fully
/// transparent one.
pub proof fn lemma_premultiply_fixed_points(c: int)
    requires
        0 <= c <= 255,
    ensures
        premultiplied_channel(c, 255) == c,
        premultiplied_channel(c, 0) == 0,
{
    lemma_power_nonneg(255, 5);
    let k = power(255, 5);
    if c > 0 {
        let pl = power(2 * c - 1, 11);
        let pr = power(2 * c, 11);
        lemma_power_monotone(2 * c - 1, 2 * c, 11);
        assert(pl * k <= pr * k) by (nonlinear_arith)
            requires
                pl <= pr,
                k >= 0,
        ;
    }
    if c < 255 {
        let pl = power(2 * c + 1, 11);
        let pr = power(2 * c, 11);
        lemma_power_monotone(2 * c, 2 * c + 1, 11);
        assert(pl * k > pr * k) by (nonlinear_arith)
            requires
                pl > pr,
                k > 0,
        ;
    }
    lemma_premultiplied_is(c, 255, c);
    lemma_power_nonneg(1, 11);
    assert(power(0, 5) == 0) by {
        reveal_with_fuel(power, 2);
    }
    assert(!half_step_reached(1, c, 0)) by {
        assert(power(2 * c, 11) * 0 == 0);
        assert(power(1, 11) * k > 0) by (nonlinear_arith)
            requires
                power(1, 11) > 0,
                k > 0,
        ;
    }
    lemma_premultiplied_is(c, 0, 0);
}

/// Exact comparison of two products through quotients and remainders, so that no
/// full product has to be formed: `lhs_a * lhs_b <= rhs_a * rhs_b`.
proof fn lemma_compare_products(lhs_a: int, lhs_b: int, rhs_a: int, rhs_b: int)
    requires
        lhs_a >= 0,
        rhs_a >= 0,
        lhs_b > 0,
        rhs_b > 0,
    ensures
        (lhs_a * lhs_b <= rhs_a * rhs_b) == (lhs_a / rhs_b < rhs_a / lhs_b || (lhs_a / rhs_b
            == rhs_a / lhs_b && (lhs_a % rhs_b) * lhs_b <= (rhs_a % lhs_b) * rhs_b)),
{
    lemma_fundamental_div_mod(lhs_a, rhs_b);
    lemma_fundamental_div_mod(rhs_a, lhs_b);
    let x1 = lhs_a / rhs_b;
    let m1 = lhs_a % rhs_b;
    let x2 = rhs_a / lhs_b;
    let m2 = rhs_a % lhs_b;
    let k = lhs_b * rhs_b;
    let s = m1 * lhs_b;
    let t = m2 * rhs_b;
    assert(0 <= s < k) by (nonlinear_arith)
        requires
            0 <= m1 < rhs_b,
            lhs_b > 0,
            k == lhs_b * rhs_b,
            s == m1 * lhs_b,
    ;
    assert(0 <= t < k) by (nonlinear_arith)
        requires
            0 <= m2 < lhs_b,
            rhs_b > 0,
            k == lhs_b * rhs_b,
            t == m2 * rhs_b,
    ;
    assert(lhs_a * lhs_b == x1 * k + s) by (nonlinear_arith)
        requires
            lhs_a == rhs_b * x1 + m1,
            k == lhs_b * rhs_b,
            s == m1 * lhs_b,
    ;
    assert(rhs_a * rhs_b == x2 * k + t) by (nonlinear_arith)
        requires
            rhs_a == lhs_b * x2 + m2,
            k == lhs_b * rhs_b,
            t == m2 * rhs_b,
    ;
    assert(x1 >= 0 && x2 >= 0) by (nonlinear_arith)
        requires
            lhs_a == rhs_b * x1 + m1,
            rhs_a == lhs_b * x2 + m2,
            0 <= m1 < rhs_b,
            0 <= m2 < lhs_b,
            lhs_a >= 0,
            rhs_a >= 0,
    ;
    if x1 < x2 {
        assert((x2 - x1) * k >= k) by (nonlinear_arith)
            requires
                x2 - x1 >= 1,
                k > 0,
        ;
        assert(x2 * k - x1 * k == (x2 - x1) * k) by (nonlinear_arith);
    } else if x1 > x2 {
        assert((x1 - x2) * k >= k) by (nonlinear_arith)
            requires
                x1 - x2 >= 1,
                k > 0,
        ;
        assert(x1 * k - x2 * k == (x1 - x2) * k) by (nonlinear_arith);
    }
}

/// `x` raised to `n`, for the small bases and exponents of the half-step test.
fn power_u128(x: u128, n: u32) -> (r: u128)
    requires
        x <= 1024,
        n <= 12,
    ensures
        r == power(x as int, n as nat),
        r <= power(1024, n as nat),
{
    proof {
        reveal_with_fuel(power, 13);
        assert(power(1024, 12) == 1329227995784915872903807060280344576);
    }
    let mut r: u128 = 1;
    let mut i: u32 = 0;
    while i < n
        invariant
            i <= n <= 12,
            x <= 1024,
            r == power(x as int, i as nat),
            r <= power(1024, i as nat),
            power(1024, 12) == 1329227995784915872903807060280344576,
        decreases n - i,
    {
        proof {
            lemma_power_grows_with_exponent(1024, (i + 1) as nat, 12);
            let b = power(1024, i as nat);
            assert(r * x <= b * 1024) by (nonlinear_arith)
                requires
                    r <= b,
                    x <= 1024,
                    r >= 0,
            ;
        }
        proof {
            assert(power(x as int, (i + 1) as nat) == x * power(x as int, i as nat));
            assert(r * x == x * r) by (nonlinear_arith);
            assert(power(1024, (i + 1) as nat) == 1024 * power(1024, i as nat));
        }
        r = r * x;
        i = i + 1;
    }
    r
}

/// Decides `half_step_reached(v, c, a)` exactly in 128-bit arithmetic.
fn reaches_half_step(v: u32, c: u32, a: u32) -> (r: bool)
    requires
        1 <= v <= 255,
        c <= 255,
        a <= 255,
    ensures
        r == half_step_reached(v as int, c as int, a as int),
{
    let l: u128 = 2 * v as u128 - 1;
    proof {
        lemma_power_nonneg(l as int, 11);
        lemma_power_nonneg(255, 5);
        let p = power(l as int, 11);
        let k = power(255, 5);
        lemma_power_nonneg(1, 11);
        assert(p * k > 0) by (nonlinear_arith)
            requires
                p > 0,
                k > 0,
        ;
    }
    if c == 0 || a == 0 {
        proof {
            reveal_with_fuel(power, 2);
            assert(power(2 * c as int, 11) * power(a as int, 5) == 0) by {
                if c == 0 {
                    assert(power(0, 11) == 0);
                } else {
                    assert(power(0, 5) == 0);
                }
            }
        }
        return false;
    }
    let d: u128 = 2 * c as u128;
    let l5 = power_u128(l, 5);
    let l6 = power_u128(l, 6);
    let k5 = power_u128(255, 5);
    let d5 = power_u128(d, 5);
    let d6 = power_u128(d, 6);
    let a5 = power_u128(a as u128, 5);
    proof {
        reveal_with_fuel(power, 7);
        assert(power(1024, 6) == 1152921504606846976);
        assert(power(1024, 5) == 1125899906842624);
        assert(l6 * k5 <= 1152921504606846976 * 1125899906842624) by (nonlinear_arith)
            requires
                l6 <= 1152921504606846976,
                k5 <= 1125899906842624,
        ;
        assert(d6 * a5 <= 1152921504606846976 * 1125899906842624) by (nonlinear_arith)
            requires
                d6 <= 1152921504606846976,
                a5 <= 1125899906842624,
        ;
        lemma_power_nonneg(l as int, 5);
        lemma_power_nonneg(d as int, 5);
    }
    let lhs_a = l6 * k5;
    let rhs_a = d6 * a5;
    let x1 = lhs_a / d5;
    let m1 = lhs_a % d5;
    let x2 = rhs_a / l5;
    let m2 = rhs_a % l5;
    proof {
        assert(m1 * l5 <= 1125899906842624 * 1125899906842624) by (nonlinear_arith)
            requires
                m1 < d5,
                d5 <= 1125899906842624,
                l5 <= 1125899906842624,
        ;
        assert(m2 * d5 <= 1125899906842624 * 1125899906842624) by (nonlinear_arith)
            requires
                m2 < l5,
                d5 <= 1125899906842624,
                l5 <= 1125899906842624,
        ;
        lemma_compare_products(lhs_a as int, l5 as int, rhs_a as int, d5 as int);
        lemma_power_adds(l as int, 6, 5);
        lemma_power_adds(d as int, 6, 5);
        assert(lhs_a * l5 == power(l as int, 11) * power(255, 5)) by (nonlinear_arith)
            requires
                lhs_a == l6 * k5,
                power(l as int, 11) == l6 * l5,
                power(255, 5) == k5,
        ;
        assert(rhs_a * d5 == power(d as int, 11) * power(a as int, 5)) by (nonlinear_arith)
            requires
                rhs_a == d6 * a5,
                power(d as int, 11) == d6 * d5,
                power(a as int, 5) == a5,
        ;
    }
    x1 < x2 || (x1 == x2 && m1 * l5 <= m2 * d5)
}

/// The premultiplied value of every channel under every alpha, computed once so that
/// a frame costs one lookup per color byte.
pub struct PremultiplyTable {
    entries: Vec<u8>,
}

impl PremultiplyTable {
    /// Every entry holds the premultiplied value of its channel under its alpha.
    pub closed spec fn wf(&self) -> bool {
        &&& self.entries@.len() == 65536
        &&& forall|i: int|
            0 <= i < 65536 ==> #[trigger] self.entries@[i] as int == premultiplied_channel(
                i % 256,
                i / 256,
            )
    }

    pub fn new() -> (t: Self)
        ensures
            t.wf(),
    {
        let mut entries: Vec<u8> = Vec::with_capacity(65536);
        let mut a: u32 = 0;
        while a < 256
            invariant
                a <= 256,
                entries@.len() == a * 256,
                forall|i: int|
                    0 <= i < entries@.len() ==> #[trigger] entries@[i] as int
                        == premultiplied_channel(i % 256, i / 256),
            decreases 256 - a,
        {
            let mut v: u32 = 0;
            let mut c: u32 = 0;
            while c < 256
                invariant
                    a < 256,
                    c <= 256,
                    v <= 255,
                    entries@.len() == a * 256 + c,
                    forall|i: int|
                        0 <= i < entries@.len() ==> #[trigger] entries@[i] as int
                            == premultiplied_channel(i % 256, i / 256),
                    c == 0 ==> v == 0,
                    c > 0 && v > 0 ==> half_step_reached(v as int, c - 1, a as int),
                decreases 256 - c,
            {
                proof {
                    if c > 0 && v > 0 {
                        lemma_reached_grows_with_channel(v as int, c - 1, a as int);
                    }
                }
                while v < 255 && reaches_half_step(v + 1, c, a)
                    invariant
                        a < 256,
                        c < 256,
                        v <= 255,
                        v > 0 ==> half_step_reached(v as int, c as int, a as int),
                    decreases 255 - v,
                {
                    v = v + 1;
                }
                proof {
                    lemma_premultiplied_is(c as int, a as int, v as int);
                    let i = a * 256 + c;
                    assert(i % 256 == c && i / 256 == a) by {
                        vstd::arithmetic::div_mod::lemma_fundamental_div_mod_converse(
                            i as int,
                            256,
                            a as int,
                            c as int,
                        );
                    }
                }
                entries.push(v as u8);
                c = c + 1;
            }
            a = a + 1;
        }
        PremultiplyTable { entries }
    }

    /// The premultiplied value of channel `c` under alpha `a`.
    pub fn premultiply(&self, c: u8, a: u8) -> (r: u8)
        requires
            self.wf(),
        ensures
            r as int == premultiplied_channel(c as int, a as int),
    {
        let i: usize = a as usize * 256 + c as usize;
        proof {
            vstd::arithmetic::div_mod::lemma_fundamental_div_mod_converse(
                i as int,
                256,
                a as int,
                c as int,
            );
        }
        self.entries[i]
    }

    /// Premultiplies every pixel of an RGBA8 buffer in place; bytes after the last
    /// whole pixel stay as they are.
    pub fn premultiply_pixels(&self, pixels: &mut Vec<u8>)
        requires
            self.wf(),
        ensures
            final(pixels)@ == premultiplied_pixels(old(pixels)@),
    {
        let ghost orig = pixels@;
        let len = pixels.len();
        let mut i: usize = 0;
        while i + 3 < len
            invariant
                len == pixels@.len() == orig.len(),
                i % 4 == 0,
                i <= len,
                self.wf(),
                forall|j: int| 0 <= j < i ==> #[trigger] pixels@[j] == premultiplied_byte(orig, j),
                forall|j: int| i <= j < len ==> #[trigger] pixels@[j] == orig[j],
            decreases len - i,
        {
            let alpha = pixels[i + 3];
            let r = self.premultiply(pixels[i], alpha);
            let g = self.premultiply(pixels[i + 1], alpha);
            let b = self.premultiply(pixels[i + 2], alpha);
            pixels.set(i, r);
            pixels.set(i + 1, g);
            pixels.set(i + 2, b);
            proof {
                assert forall|j: int| i <= j < i + 4 implies #[trigger] pixels@[j]
                    == premultiplied_byte(orig, j) by {
                    assert(j - j % 4 == i);
                }
            }
            i = i + 4;
        }
        proof {
            assert forall|j: int| i <= j < len implies #[trigger] pixels@[j] == premultiplied_byte(
                orig,
                j,
            ) by {
                assert(j - j % 4 == i || j - j % 4 + 3 >= len);
            }
            assert(pixels@ =~= premultiplied_pixels(orig));
        }
    }
}

} // verus!
