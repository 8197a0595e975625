//! What a transcript draws, element by element.
use vstd::prelude::*;
use vstd::arithmetic::div_mod::{lemma_fundamental_div_mod, lemma_fundamental_div_mod_converse,
    lemma_mod_bound};
use vstd::arithmetic::power2::{lemma_pow2_pos, pow2};
use crate::transcript::Sponge;

verus! {

/// An extension element is drawn as four field elements, its lowest coefficient first.
pub proof fn extension_draw_is_four_draws(s: Sponge)
    ensures
        s.drawn_ext().c0 == s.drawn(),
        s.drawn_ext().c1 == s.after_draws(1).drawn(),
        s.drawn_ext().c2 == s.after_draws(2).drawn(),
        s.drawn_ext().c3 == s.after_draws(3).drawn(),
        s.after_draw_ext() == s.after_draws(4),
{
    reveal(Sponge::drawn_ext);
    reveal(Sponge::after_draw_ext);
    reveal_with_fuel(Sponge::after_draws, 5);
}

proof fn draws_add(s: Sponge, a: nat, b: nat)
    ensures
        s.after_draws(a).after_draws(b) == s.after_draws(a + b),
    decreases b,
{
    if b > 0 {
        draws_add(s, a, (b - 1) as nat);
    }
}

/// Drawing `n` extension elements draws `4n` field elements.
pub proof fn extension_draws_are_draws(s: Sponge, n: nat)
    ensures
        s.after_draw_exts(n) == s.after_draws(4 * n),
    decreases n,
{
    if n > 0 {
        extension_draws_are_draws(s, (n - 1) as nat);
        extension_draw_is_four_draws(s.after_draw_exts((n - 1) as nat));
        draws_add(s, 4 * (n - 1) as nat, 4);
    }
}

/// The coefficients of drawn extension elements are the field elements drawn, in turn.
pub proof fn coefficients_are_drawn_in_turn(s: Sponge, n: nat, i: int)
    requires
        0 <= i < n,
    ensures
        s.drawn_exts(n).len() == n,
        s.drawn_exts(n)[i].c0 == s.after_draws((4 * i) as nat).drawn(),
        s.drawn_exts(n)[i].c1 == s.after_draws((4 * i + 1) as nat).drawn(),
        s.drawn_exts(n)[i].c2 == s.after_draws((4 * i + 2) as nat).drawn(),
        s.drawn_exts(n)[i].c3 == s.after_draws((4 * i + 3) as nat).drawn(),
{
    let at = s.after_draw_exts(i as nat);
    extension_draws_are_draws(s, i as nat);
    extension_draw_is_four_draws(at);
    draws_add(s, (4 * i) as nat, 1);
    draws_add(s, (4 * i) as nat, 2);
    draws_add(s, (4 * i) as nat, 3);
}

/// Drawn indices are the low bits of the field elements drawn, in turn.
pub proof fn indices_are_low_bits(s: Sponge, bits: nat, n: nat, i: int)
    requires
        0 <= i < n,
    ensures
        s.drawn_indices(bits, n).len() == n,
        0 <= s.drawn_indices(bits, n)[i] < pow2(bits),
        exists|high: int|
            s.after_draws(i as nat).drawn() == #[trigger] (high * pow2(bits)) + s.drawn_indices(
                bits,
                n,
            )[i],
{
    reveal(Sponge::drawn_bits);
    lemma_pow2_pos(bits);
    let x = s.after_draws(i as nat).drawn();
    let m = pow2(bits) as int;
    lemma_fundamental_div_mod(x, m);
    lemma_mod_bound(x, m);
    vstd::arithmetic::mul::lemma_mul_is_commutative(m, x / m);
    assert(x == (x / m) * m + s.drawn_indices(bits, n)[i]);
}

/// A proof of work is one after which the field element drawn is a multiple of the power of
/// two that is asked for; it is absorbed, and that element is drawn. No bits ask for no work
/// and leave the transcript alone.
pub proof fn work_makes_the_low_bits_zero(s: Sponge, bits: nat, witness: int, high: int)
    ensures
        bits == 0 ==> s.pow_ok(bits, witness) && s.after_pow(bits, witness) == s,
        bits > 0 ==> s.after_pow(bits, witness) == s.observe(witness).after_draws(1),
        s.observe(witness).drawn() == high * pow2(bits) ==> s.pow_ok(bits, witness),
        bits > 0 && s.pow_ok(bits, witness) ==> exists|k: int|
            s.observe(witness).drawn() == #[trigger] (k * pow2(bits)),
{
    reveal(Sponge::pow_ok);
    reveal(Sponge::after_pow);
    reveal(Sponge::drawn_bits);
    reveal_with_fuel(Sponge::after_draws, 2);
    lemma_pow2_pos(bits);
    let x = s.observe(witness).drawn();
    let m = pow2(bits) as int;
    lemma_fundamental_div_mod(x, m);
    vstd::arithmetic::mul::lemma_mul_is_commutative(m, x / m);
    if x == high * pow2(bits) {
        lemma_fundamental_div_mod_converse(x, m, high, 0);
    }
    if bits > 0 && s.pow_ok(bits, witness) {
        assert(x == (x / m) * pow2(bits));
    }
}

} // verus!
