//! Hashing of token sequences: a one-shot hash of a whole sequence and a
//! polynomial rolling hash over a sliding window of tokens.

use std::hash::{Hash, Hasher};
use vstd::arithmetic::div_mod::{
    lemma_add_mod_noop, lemma_mod_add_multiples_vanish, lemma_mul_mod_noop_left,
    lemma_mul_mod_noop_right, lemma_sub_mod_noop,
};
use vstd::arithmetic::mul::{lemma_mul_is_associative, lemma_mul_is_distributive_add};
use vstd::arithmetic::power::{lemma_pow_adds, lemma_pow_multiplies, pow};
use vstd::prelude::*;

verus! {

/// Base of the rolling polynomial hash.
pub const ROLLING_BASE: u64 = 31;

/// Modulus of the rolling polynomial hash (a prime).
pub const ROLLING_MODULUS: u64 = 1_000_000_007;

/// What `rustc_hash::FxHasher` yields after hashing one string (through
/// `Hash for str`) from its default state. The value is fixed within one
/// build; it differs between 32-bit and 64-bit targets.
pub uninterp spec fn fx_hash_of_str(s: Seq<char>) -> u64;

/// What `rustc_hash::FxHasher` yields after hashing each string of a
/// sequence in turn (through `Hash for String`) from its default state.
/// The value is fixed within one build; it differs between 32-bit and
/// 64-bit targets.
pub uninterp spec fn fx_hash_of_strings(tokens: Seq<Seq<char>>) -> u64;

/// Calls `rustc_hash::FxHasher`: a default hasher is fed the string through
/// `Hash::hash` and `finish` is returned. The contract claims only that the
/// result is the named function of the string's characters.
#[verifier::external_body]
fn fx_hash_str(s: &str) -> (h: u64)
    ensures
        h == fx_hash_of_str(s@),
{
    let mut hasher = rustc_hash::FxHasher::default();
    s.hash(&mut hasher);
    hasher.finish()
}

/// Fast hash of a token sequence.
///
/// Calls `rustc_hash::FxHasher`: a default hasher is fed every token in order
/// through `Hash::hash` and `finish` is returned. The contract claims only
/// that the result is the named function of the tokens' characters.
#[verifier::external_body]
pub fn hash_tokens(tokens: &[String]) -> (h: u64)
    ensures
        h == fx_hash_of_strings(tokens@.map_values(|t: String| t@)),
{
    let mut hasher = rustc_hash::FxHasher::default();
    for token in tokens {
        token.hash(&mut hasher);
    }
    hasher.finish()
}

/// The hash that the rolling hash assigns to a single token: its Fx hash
/// reduced modulo the rolling modulus.
pub open spec fn token_hash(token: Seq<char>) -> u64 {
    (fx_hash_of_str(token) % ROLLING_MODULUS) as u64
}

/// The polynomial of a window of token hashes, unreduced:
/// `w[0] * 31^(n-1) + w[1] * 31^(n-2) + ... + w[n-1]`.
pub open spec fn window_poly(w: Seq<u64>) -> int
    decreases w.len(),
{
    if w.len() == 0 {
        0
    } else {
        window_poly(w.drop_last()) * ROLLING_BASE + w.last()
    }
}

/// The rolling hash of a window of token hashes.
pub open spec fn window_hash(w: Seq<u64>) -> int {
    window_poly(w) % (ROLLING_MODULUS as int)
}

/// The rolling hash of the window formed by the hashes of the given tokens.
pub open spec fn tokens_window_hash(tokens: Seq<Seq<char>>) -> int {
    window_hash(tokens.map_values(|t: Seq<char>| token_hash(t)))
}

/// Splitting off the first element of a window: its contribution is
/// `first * 31^(rest length)`.
proof fn lemma_window_poly_first(w: Seq<u64>)
    requires
        w.len() > 0,
    ensures
        window_poly(w) == w[0] * pow(ROLLING_BASE as int, (w.len() - 1) as nat) + window_poly(
            w.drop_first(),
        ),
    decreases w.len(),
{
    let n = (w.len() - 1) as nat;
    if w.len() == 1 {
        assert(w.drop_first().len() == 0);
        assert(w.drop_last().len() == 0);
        assert(window_poly(w.drop_first()) == 0);
        assert(window_poly(w.drop_last()) == 0);
        assert(w.last() == w[0]);
        assert(window_poly(w) == w[0]);
        assert(pow(ROLLING_BASE as int, 0) == 1) by {
            reveal(pow);
        }
    } else {
        let wl = w.drop_last();
        let wd = w.drop_first();
        lemma_window_poly_first(wl);
        assert(wl[0] == w[0]);
        assert(wl.drop_first() =~= wd.drop_last());
        assert(wd.last() == w.last());
        assert(wd.len() > 0);
        assert(window_poly(wd) == window_poly(wd.drop_last()) * ROLLING_BASE + wd.last());
        assert(window_poly(w) == window_poly(wl) * ROLLING_BASE + w.last());
        let p = pow(ROLLING_BASE as int, (n - 1) as nat);
        assert(pow(ROLLING_BASE as int, n) == ROLLING_BASE * p) by {
            reveal(pow);
        }
        let rest_wl = window_poly(wl.drop_first());
        assert(window_poly(wl) == w[0] * p + rest_wl);
        assert((w[0] * p + rest_wl) * ROLLING_BASE == w[0] * (ROLLING_BASE * p) + rest_wl
            * ROLLING_BASE) by (nonlinear_arith);
    }
}

/// Appending a token hash to a window, computed on reduced values.
proof fn lemma_window_hash_push(w: Seq<u64>, h: int, t: u64)
    requires
        h == window_hash(w),
    ensures
        (h * ROLLING_BASE + t) % (ROLLING_MODULUS as int) == window_hash(w.push(t)),
{
    let m = ROLLING_MODULUS as int;
    let p = window_poly(w);
    assert(w.push(t).drop_last() =~= w);
    lemma_mul_mod_noop_left(p, ROLLING_BASE as int, m);
    lemma_add_mod_noop(h * ROLLING_BASE, t as int, m);
    lemma_add_mod_noop(p * ROLLING_BASE, t as int, m);
}

/// Removing the first token hash from a full window, computed on reduced
/// values, given `bp == 31^(n-1) mod M`.
proof fn lemma_window_hash_drop_first(w: Seq<u64>, h: int, bp: int)
    requires
        w.len() > 0,
        h == window_hash(w),
        bp == pow(ROLLING_BASE as int, (w.len() - 1) as nat) % (ROLLING_MODULUS as int),
        0 <= w[0],
    ensures
        (h + ROLLING_MODULUS - (w[0] * bp) % (ROLLING_MODULUS as int)) % (ROLLING_MODULUS as int)
            == window_hash(w.drop_first()),
{
    let m = ROLLING_MODULUS as int;
    let pw = pow(ROLLING_BASE as int, (w.len() - 1) as nat);
    lemma_window_poly_first(w);
    lemma_mul_mod_noop_right(w[0] as int, pw, m);
    let x = (w[0] * bp) % m;
    assert(x == (w[0] * pw) % m);
    lemma_sub_mod_noop(window_poly(w), w[0] * pw, m);
    assert((h - x) % m == window_poly(w.drop_first()) % m);
    lemma_mod_add_multiples_vanish(h - x, m);
}

/// One slide of a full window: drop the oldest hash, append a new one.
proof fn lemma_window_hash_slide(w: Seq<u64>, h: u64, bp: u64, t: u64)
    requires
        w.len() > 0,
        h < ROLLING_MODULUS,
        h as int == window_hash(w),
        bp as int == pow(ROLLING_BASE as int, (w.len() - 1) as nat) % (ROLLING_MODULUS as int),
        bp < ROLLING_MODULUS,
        w[0] < ROLLING_MODULUS,
        t < ROLLING_MODULUS,
    ensures
        w[0] * bp <= (ROLLING_MODULUS - 1) * (ROLLING_MODULUS - 1),
        ({
            let mid = (h + ROLLING_MODULUS - (w[0] * bp) % (ROLLING_MODULUS as int)) % (
            ROLLING_MODULUS as int);
            &&& 0 <= mid < ROLLING_MODULUS
            &&& (mid * ROLLING_BASE + t) % (ROLLING_MODULUS as int) == window_hash(
                w.drop_first().push(t),
            )
        }),
{
    let a = w[0];
    assert(a * bp <= (ROLLING_MODULUS - 1) * (ROLLING_MODULUS - 1)) by (nonlinear_arith)
        requires
            a < ROLLING_MODULUS,
            bp < ROLLING_MODULUS,
    ;
    lemma_window_hash_drop_first(w, h as int, bp as int);
    let mid = (h + ROLLING_MODULUS - (a * bp) % (ROLLING_MODULUS as int)) % (
    ROLLING_MODULUS as int);
    lemma_window_hash_push(w.drop_first(), mid, t);
}

/// A rolling hash over a sliding window of tokens.
///
/// Once `window_size` tokens have been pushed, each push yields the
/// polynomial hash (base 31, modulo 1_000_000_007) of the hashes of the last
/// `window_size` tokens.
pub struct RollingHash {
    base: u64,
    modulus: u64,
    window_size: usize,
    current_hash: u64,
    window: Vec<u64>,
}

impl RollingHash {
    /// Number of tokens in a full window.
    pub closed spec fn window_size(&self) -> nat {
        self.window_size as nat
    }

    /// Hashes of the tokens currently in the window, oldest first.
    pub closed spec fn window(&self) -> Seq<u64> {
        self.window@
    }

    /// The roller's internal state is consistent: its running hash is the
    /// hash of its window, which is never longer than the window size.
    pub closed spec fn wf(&self) -> bool {
        &&& self.base == ROLLING_BASE
        &&& self.modulus == ROLLING_MODULUS
        &&& self.window@.len() <= self.window_size
        &&& self.current_hash < ROLLING_MODULUS
        &&& self.current_hash as int == window_hash(self.window@)
        &&& forall|i: int| 0 <= i < self.window@.len() ==> #[trigger] self.window@[i] < ROLLING_MODULUS
    }

    pub fn new(window_size: usize) -> (r: Self)
        ensures
            r.wf(),
            r.window_size() == window_size,
            r.window() == Seq::<u64>::empty(),
    {
        let r = Self {
            base: 31,
            modulus: 1_000_000_007,
            window_size,
            current_hash: 0,
            window: Vec::with_capacity(window_size),
        };
        assert(r.window@.len() == 0);
        r
    }

    /// Adds a token to the rolling hash. Yields the hash of the window as
    /// soon as the window is full, and `None` while it is still filling.
    pub fn push(&mut self, token: &str) -> (r: Option<u64>)
        requires
            old(self).wf(),
            old(self).window_size() > 0,
        ensures
            final(self).wf(),
            final(self).window_size() == old(self).window_size(),
            final(self).window() == (if old(self).window().len() < old(self).window_size() {
                old(self).window().push(token_hash(token@))
            } else {
                old(self).window().drop_first().push(token_hash(token@))
            }),
            r == (if final(self).window().len() == final(self).window_size() {
                Some(window_hash(final(self).window()) as u64)
            } else {
                None
            }),
    {
        let token_hash = self.hash_string(token);
        let ghost w0 = self.window@;
        if self.window.len() < self.window_size {
            proof {
                lemma_window_hash_push(w0, self.current_hash as int, token_hash);
            }
            self.current_hash = (self.current_hash * self.base + token_hash) % self.modulus;
            self.window.push(token_hash);
            if self.window.len() == self.window_size {
                Some(self.current_hash)
            } else {
                None
            }
        } else {
            let base_power = self.mod_pow(self.base, self.window_size as u64 - 1);
            let old_token = self.window.remove(0);
            self.window.push(token_hash);
            proof {
                assert(w0.remove(0) =~= w0.drop_first());
                assert(self.window@ =~= w0.drop_first().push(token_hash));
                lemma_window_hash_slide(w0, self.current_hash, base_power, token_hash);
            }
            let removed = (old_token * base_power) % self.modulus;
            let mid = (self.current_hash + self.modulus - removed) % self.modulus;
            self.current_hash = (mid * self.base + token_hash) % self.modulus;
            Some(self.current_hash)
        }
    }

    fn hash_string(&self, s: &str) -> (h: u64)
        requires
            self.wf(),
        ensures
            h == token_hash(s@),
            h < ROLLING_MODULUS,
    {
        fx_hash_str(s) % self.modulus
    }

    /// Modular exponentiation by repeated squaring.
    fn mod_pow(&self, base: u64, exp: u64) -> (r: u64)
        requires
            self.wf(),
        ensures
            r as int == pow(base as int, exp as nat) % (ROLLING_MODULUS as int),
    {
        let ghost b0 = base as int;
        let mut exp = exp;
        let ghost e0 = exp;
        let mut result = 1u64;
        let mut base = base % self.modulus;
        let ghost m = ROLLING_MODULUS as int;
        proof {
            lemma_pow_mod_noop_local(b0, e0 as nat);
        }
        while exp > 0
            invariant
                self.wf(),
                result < ROLLING_MODULUS,
                base < ROLLING_MODULUS,
                (result * pow(base as int, exp as nat)) % m == pow(b0, e0 as nat)
                    % m,
                m == ROLLING_MODULUS as int,
            decreases exp,
        {
            let ghost b = base as int;
            let ghost e = exp as nat;
            let ghost r0 = result as int;
            if exp % 2 == 1 {
                assert(result * base <= (ROLLING_MODULUS - 1) * (ROLLING_MODULUS - 1))
                    by (nonlinear_arith)
                    requires
                        result < ROLLING_MODULUS,
                        base < ROLLING_MODULUS,
                ;
                result = (result * base) % self.modulus;
                proof {
                    // r0 * b^e == (r0 * b) * b^(e-1)
                    lemma_pow_adds(b, 1, (e - 1) as nat);
                    assert(pow(b, 1) == b) by {
                        reveal(pow);
                        assert(pow(b, 0) == 1);
                    }
                    lemma_mul_is_associative(r0, b, pow(b, (e - 1) as nat));
                    lemma_mul_mod_noop_left(r0 * b, pow(b, (e - 1) as nat), m);
                }
            }
            let ghost e1 = if exp % 2 == 1 {
                (e - 1) as nat
            } else {
                e
            };
            assert((result * pow(base as int, e1)) % m == pow(b0, e0 as nat)
                % m);
            exp = exp / 2;
            assert(base * base <= (ROLLING_MODULUS - 1) * (ROLLING_MODULUS - 1))
                by (nonlinear_arith)
                requires
                    base < ROLLING_MODULUS,
            ;
            base = (base * base) % self.modulus;
            proof {
                // b^e1 == (b*b)^(e1/2)
                assert(e1 == 2 * (exp as nat));
                lemma_pow_multiplies(b, 2, exp as nat);
                assert(pow(b, 2) == b * b) by {
                    reveal(pow);
                    assert(pow(b, 0) == 1);
                    assert(pow(b, 1) == b * pow(b, 0));
                }
                lemma_pow_mod_noop_local(b * b, exp as nat);
                // result * (b*b)^k  ≡ result * ((b*b) % m)^k
                lemma_mul_mod_noop_right(result as int, pow(b * b, exp as nat), m);
                lemma_mul_mod_noop_right(result as int, pow(base as int, exp as nat), m);
            }
        }
        proof {
            assert(pow(base as int, 0) == 1) by {
                reveal(pow);
            }
        }
        result
    }

    /// A well-formed roller's window is never longer than its size.
    pub proof fn lemma_window_fits(&self)
        requires
            self.wf(),
        ensures
            self.window().len() <= self.window_size(),
    {
    }

    /// Empties the window, returning the roller to its freshly created state.
    pub fn reset(&mut self)
        requires
            old(self).wf(),
        ensures
            final(self).wf(),
            final(self).window_size() == old(self).window_size(),
            final(self).window() == Seq::<u64>::empty(),
    {
        self.current_hash = 0;
        self.window.clear();
    }
}

proof fn lemma_pow_mod_noop_local(b: int, e: nat)
    ensures
        pow(b % (ROLLING_MODULUS as int), e) % (ROLLING_MODULUS as int) == pow(b, e) % (
        ROLLING_MODULUS as int),
{
    vstd::arithmetic::power::lemma_pow_mod_noop(b, e, ROLLING_MODULUS as int);
}

} // verus!
