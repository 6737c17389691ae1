use vstd::arithmetic::div_mod::{lemma_div_denominator, lemma_fundamental_div_mod_converse};
use vstd::arithmetic::power2::{lemma_pow2_pos, lemma_pow2_unfold, lemma2_to64, pow2};
use vstd::prelude::*;

verus! {

/// What `char::to_uppercase` makes of a character.
pub uninterp spec fn upper_of(c: char) -> Seq<char>;

/// Whether `char::is_alphabetic` holds of a character.
pub uninterp spec fn alphabetic_of(c: char) -> bool;

/// Relies on `char::to_uppercase`: its result depends on the character
/// alone; its characters are collected in order.
#[verifier::external_body]
fn upper_char(c: char) -> (r: Vec<char>)
    ensures
        r@ == upper_of(c),
{
    c.to_uppercase().collect()
}

/// Relies on `char::is_alphabetic`: the Unicode `Alphabetic` property, which
/// among ASCII characters holds of the Latin letters only.
#[verifier::external_body]
fn is_letter(c: char) -> (r: bool)
    ensures
        r == alphabetic_of(c),
        (c as u32) < 128 ==> (r <==> ('A' <= c <= 'Z' || 'a' <= c <= 'z')),
{
    c.is_alphabetic()
}

/// How often `c` occurs in `s`.
pub open spec fn count_of(s: Seq<char>, c: char) -> nat
    decreases s.len(),
{
    if s.len() == 0 {
        0
    } else {
        count_of(s.drop_last(), c) + if s.last() == c { 1nat } else { 0nat }
    }
}

/// The number of ordered pairs of different positions of `s` that hold the
/// same character; summed over the characters, `f * (f - 1)` for a character
/// that occurs `f` times.
pub open spec fn coincident_pairs(s: Seq<char>) -> nat
    decreases s.len(),
{
    if s.len() == 0 {
        0
    } else {
        coincident_pairs(s.drop_last()) + 2 * count_of(s.drop_last(), s.last())
    }
}

/// The alphabetic characters of `s`, in order, each upper-cased.
pub open spec fn upper_letters_of(s: Seq<char>) -> Seq<char>
    decreases s.len(),
{
    if s.len() == 0 {
        Seq::empty()
    } else if alphabetic_of(s.last()) {
        upper_letters_of(s.drop_last()) + upper_of(s.last())
    } else {
        upper_letters_of(s.drop_last())
    }
}

/// The index of coincidence of a sequence of letters, as a fraction: zero
/// (`0 / 1`) for fewer than two letters, else `coincident_pairs / (n * (n - 1))`.
pub open spec fn coincidence_of(letters: Seq<char>) -> (int, int) {
    let n = letters.len() as int;
    if n <= 1 {
        (0, 1)
    } else {
        (coincident_pairs(letters) as int, n * (n - 1))
    }
}

/// The index of coincidence, held exactly as a fraction.
#[derive(Clone, Copy, Debug, PartialEq, Eq)]
pub struct Coincidence {
    pub numerator: u128,
    pub denominator: u128,
}

proof fn lemma_count_bound(s: Seq<char>, c: char)
    ensures
        count_of(s, c) <= s.len(),
    decreases s.len(),
{
    if s.len() > 0 {
        lemma_count_bound(s.drop_last(), c);
    }
}

proof fn lemma_pairs_bound(s: Seq<char>)
    ensures
        coincident_pairs(s) <= s.len() * (s.len() - 1),
    decreases s.len(),
{
    if s.len() > 0 {
        let p = s.drop_last();
        lemma_pairs_bound(p);
        lemma_count_bound(p, s.last());
        let n = p.len() as int;
        assert(n * (n - 1) + 2 * n == (n + 1) * n) by (nonlinear_arith);
    }
}

proof fn lemma_count_push(s: Seq<char>, c: char, d: char)
    ensures
        count_of(s.push(c), d) == count_of(s, d) + if c == d { 1nat } else { 0nat },
{
    assert(s.push(c).drop_last() =~= s);
}

/// The index of coincidence of a sequence of letters, each counted as it
/// stands.
pub fn letter_coincidence(text: &[char]) -> (r: Coincidence)
    ensures
        r.numerator == coincidence_of(text@).0,
        r.denominator == coincidence_of(text@).1,
        0 < r.denominator,
        r.numerator <= r.denominator,
{
    let mut hist: Vec<(char, usize)> = Vec::new();
    let ghost mut letters: Seq<char> = Seq::empty();
    let mut n: usize = 0;
    let mut num: u128 = 0;
    let mut i: usize = 0;
    while i < text.len()
        invariant
            i <= text@.len(),
            letters == text@.subrange(0, i as int),
            n == letters.len(),
            n == i,
            num == coincident_pairs(letters),
            forall|k: int| 0 <= k < hist@.len() ==> #[trigger] hist@[k].1 == count_of(letters, hist@[k].0),
            forall|c: char|
                (forall|k: int| 0 <= k < hist@.len() ==> #[trigger] hist@[k].0 != c) ==> count_of(letters, c) == 0,
            forall|k1: int, k2: int|
                0 <= k1 < hist@.len() && 0 <= k2 < hist@.len() && k1 != k2 ==> hist@[k1].0 != hist@[k2].0,
        decreases text@.len() - i,
    {
        let c = text[i];
        proof {
            assert(text@.subrange(0, i + 1).drop_last() =~= text@.subrange(0, i as int));
        }
        {
            let mut found: Option<usize> = None;
            let mut k: usize = 0;
            while k < hist.len()
                invariant
                    k <= hist@.len(),
                    found matches Some(f) ==> f < hist@.len() && hist@[f as int].0 == c,
                    found is None ==> forall|j: int| 0 <= j < k ==> #[trigger] hist@[j].0 != c,
                decreases hist@.len() - k,
            {
                if found.is_none() && hist[k].0 == c {
                    found = Some(k);
                }
                k = k + 1;
            }
            let cnt: usize = match found {
                Some(f) => hist[f].1,
                None => 0,
            };
            proof {
                lemma_count_bound(letters, c);
                lemma_pairs_bound(letters);
                assert(cnt == count_of(letters, c));
                let nn = n as int;
                assert(nn * (nn - 1) + 2 * nn <= (nn + 1) * nn) by (nonlinear_arith);
                assert((nn + 1) * nn < 0x1_0000_0000_0000_0000_0000_0000_0000_0000) by (nonlinear_arith)
                    requires
                        0 <= nn <= usize::MAX,
                ;
            }
            num = num + 2 * (cnt as u128);
            let ghost old_letters = letters;
            proof {
                letters = letters.push(c);
                assert forall|d: char| count_of(letters, d) == count_of(old_letters, d) + if c == d { 1nat } else { 0nat } by {
                    lemma_count_push(old_letters, c, d);
                }
                assert(letters.drop_last() =~= old_letters);
            }
            let ghost old_hist = hist@;
            match found {
                Some(f) => {
                    hist.set(f, (c, cnt + 1));
                },
                None => {
                    hist.push((c, 1));
                },
            }
            proof {
                assert forall|k: int| 0 <= k < hist@.len() implies #[trigger] hist@[k].1 == count_of(
                    letters,
                    hist@[k].0,
                ) by {
                    lemma_count_push(old_letters, c, hist@[k].0);
                    if k < old_hist.len() {
                        assert(old_hist[k].1 == count_of(old_letters, old_hist[k].0));
                    }
                }
                assert forall|d: char|
                    (forall|k: int| 0 <= k < hist@.len() ==> #[trigger] hist@[k].0 != d) implies count_of(
                    letters,
                    d,
                ) == 0 by {
                    lemma_count_push(old_letters, c, d);
                    if d == c {
                        match found {
                            Some(f) => {
                                assert(hist@[f as int].0 == c);
                            },
                            None => {
                                assert(hist@[old_hist.len() as int].0 == c);
                            },
                        }
                    } else {
                        assert forall|k: int| 0 <= k < old_hist.len() implies #[trigger] old_hist[k].0 != d by {
                            assert(hist@[k].0 == old_hist[k].0);
                        }
                    }
                }
            }
            n = n + 1;
        }
        proof {
            assert(letters =~= text@.subrange(0, i + 1));
        }
        i = i + 1;
    }
    proof {
        assert(text@.subrange(0, i as int) =~= text@);
    }
    if n <= 1 {
        Coincidence { numerator: 0, denominator: 1 }
    } else {
        proof {
            lemma_pairs_bound(letters);
            let nn = n as int;
            assert(0 < nn * (nn - 1) < 0x1_0000_0000_0000_0000_0000_0000_0000_0000) by (nonlinear_arith)
                requires
                    1 < nn <= usize::MAX,
            ;
        }
        let nn = n as u128;
        Coincidence { numerator: num, denominator: nn * (nn - 1) }
    }
}

/// The index of coincidence of `text`: its alphabetic characters are kept,
/// upper-cased, then counted.
pub fn index_of_coincidence(text: &str) -> (r: Coincidence)
    ensures
        r.numerator == coincidence_of(upper_letters_of(text@)).0,
        r.denominator == coincidence_of(upper_letters_of(text@)).1,
        0 < r.denominator,
        r.numerator <= r.denominator,
{
    let mut letters: Vec<char> = Vec::new();
    for c in it: text.chars()
        invariant
            it.seq() == text@,
            letters@ == upper_letters_of(text@.subrange(0, it.index() as int)),
    {
        proof {
            assert(text@.subrange(0, it.index() + 1).drop_last() =~= text@.subrange(
                0,
                it.index() as int,
            ));
            assert(text@[it.index() as int] == c);
        }
        if is_letter(c) {
            let mut upper = upper_char(c);
            letters.append(&mut upper);
        }
    }
    proof {
        assert(text@.subrange(0, text@.len() as int) =~= text@);
    }
    letter_coincidence(letters.as_slice())
}

/// `num / den * scale` rounded to the nearest integer, halves rounded up.
pub open spec fn rounded_scale(num: int, den: int, scale: int) -> int {
    (2 * num * scale + den) / (2 * den)
}

/// One step of the long division of `a * m` by `b`: from the quotient and
/// remainder for the prefix `h` of `m`'s bits to those for `2 * h + bit`.
proof fn lemma_step(a: int, b: int, h: int, q: int, r: int, bit: int, q2: int, r2: int)
    requires
        0 <= a <= b,
        0 < b,
        0 <= h,
        bit == 0 || bit == 1,
        a * h == q * b + r,
        0 <= r < b,
        a * (2 * h + bit) == q2 * b + r2,
        0 <= r2 < b,
    ensures
        0 <= q2 <= 2 * h + bit,
{
    let h2 = 2 * h + bit;
    assert(0 <= a * h2) by (nonlinear_arith)
        requires
            0 <= a,
            0 <= h2,
    ;
    assert(a * h2 <= b * h2) by (nonlinear_arith)
        requires
            a <= b,
            0 <= h2,
    ;
    assert(q2 * b <= b * h2);
    assert(q2 <= h2) by (nonlinear_arith)
        requires
            q2 * b <= b * h2,
            0 < b,
    ;
    assert(0 <= q2) by (nonlinear_arith)
        requires
            0 <= q2 * b + r2,
            r2 < b,
            0 < b,
    ;
}

/// Scales an index of coincidence to an integer score: `round(c * scale)`,
/// computed exactly.
pub fn scale_coincidence(c: Coincidence, scale: usize) -> (r: usize)
    requires
        0 < c.denominator,
        c.numerator <= c.denominator,
    ensures
        r == rounded_scale(c.numerator as int, c.denominator as int, scale as int),
        r <= scale,
{
    let a = c.numerator;
    let b = c.denominator;
    let m = scale as u128;
    let mut p: u128 = 0x1_0000_0000_0000_0000;
    let ghost mut e: nat = 64;
    let mut q: u128 = 0;
    let mut rem: u128 = 0;
    proof {
        lemma2_to64();
        assert(m as int / p as int == 0);
    }
    while p > 1
        invariant
            p == pow2(e),
            e <= 64,
            a <= b,
            0 < b,
            m <= 0xFFFF_FFFF_FFFF_FFFF,
            a * (m / p) == q * b + rem,
            rem < b,
            q <= m / p,
        decreases p,
    {
        proof {
            if e == 0 {
                lemma2_to64();
            }
            lemma_pow2_unfold(e);
        }
        let ghost h = m / p;
        p = p / 2;
        proof {
            e = (e - 1) as nat;
            lemma_div_denominator(m as int, p as int, 2);
        }
        let bit: u128 = (m / p) % 2;
        assert(m / p == 2 * h + bit);
        let mut q2: u128;
        let mut r2: u128;
        if rem >= b - rem {
            r2 = rem - (b - rem);
            q2 = 2 * q + 1;
        } else {
            r2 = rem + rem;
            q2 = 2 * q;
        }
        assert(a * (2 * h) == q2 * b + r2) by (nonlinear_arith)
            requires
                a * h == q * b + rem,
                (rem >= b - rem && r2 == 2 * rem - b && q2 == 2 * q + 1) || (rem < b - rem && r2 == 2
                    * rem && q2 == 2 * q),
        ;
        let ghost q1 = q2;
        let ghost r1 = r2;
        if bit == 1 {
            if r2 >= b - a {
                r2 = r2 - (b - a);
                q2 = q2 + 1;
            } else {
                r2 = r2 + a;
            }
        }
        assert(a * (2 * h + bit) == q2 * b + r2) by (nonlinear_arith)
            requires
                a * (2 * h) == q1 * b + r1,
                (bit == 0 && q2 == q1 && r2 == r1) || (bit == 1 && r2 == r1 + a - b && q2 == q1 + 1)
                    || (bit == 1 && r2 == r1 + a && q2 == q1),
        ;
        proof {
            lemma_step(a as int, b as int, h as int, q as int, rem as int, bit as int, q2 as int, r2 as int);
        }
        q = q2;
        rem = r2;
    }
    let up: u128 = if rem >= b - rem { 1 } else { 0 };
    proof {
        lemma_pow2_pos(e);
        assert(p == 1);
        assert(m / 1 == m);
        let x = 2 * a * m + b;
        assert(x == (q + up) * (2 * b) + (2 * rem + b - 2 * b * up)) by (nonlinear_arith)
            requires
                a * m == q * b + rem,
                x == 2 * a * m + b,
        ;
        lemma_fundamental_div_mod_converse(x, 2 * b, q + up, 2 * rem + b - 2 * b * up);
        assert((q + up) * (2 * b) <= 2 * b * m + b) by (nonlinear_arith)
            requires
                (q + up) * (2 * b) <= x,
                x == 2 * a * m + b,
                a <= b,
                0 <= m,
        ;
        assert(q + up <= m) by (nonlinear_arith)
            requires
                (q + up) * (2 * b) <= 2 * b * m + b,
                0 < b,
        ;
    }
    (q + up) as usize
}

} // verus!
