//! The Fiat-Shamir transcript.
//!
//! A transcript is the state of a duplex sponge over sixteen field elements
//! with rate eight: the sponge itself, the inputs that wait to be absorbed, and
//! the outputs that wait to be drawn. The sponge's own steps are those of
//! `p3_challenger::DuplexChallenger` over the Poseidon2 permutation of
//! `p3_koala_bear`.
use vstd::prelude::*;
use vstd::arithmetic::power2::pow2;
use p3_challenger::{CanObserve, CanSample, DuplexChallenger};
use p3_field::{PrimeCharacteristicRing, PrimeField32};
use p3_koala_bear::{default_koalabear_poseidon2_16, KoalaBear, Poseidon2KoalaBear};
use crate::arith::{pow2_le, pow2_usize};
use crate::ext::{evals, fvals, Ext, E4};
use crate::felt::{order, Felt, ORDER};

verus! {

/// The challenger over the Poseidon2 permutation of width sixteen, with rate eight.
type InnerChallenger = DuplexChallenger<KoalaBear, Poseidon2KoalaBear<16>, 16, 8>;

/// The state of a transcript: sponge, pending inputs and pending outputs.
pub struct Sponge {
    pub state: Seq<int>,
    pub input: Seq<int>,
    pub output: Seq<int>,
}

/// The state after `DuplexChallenger::observe` of one field element: sponge,
/// pending inputs and pending outputs.
pub uninterp spec fn duplex_observe(
    state: Seq<int>,
    input: Seq<int>,
    output: Seq<int>,
    x: int,
) -> (Seq<int>, Seq<int>, Seq<int>);

/// The element that `DuplexChallenger::sample` draws, and the state after it.
pub uninterp spec fn duplex_sample(
    state: Seq<int>,
    input: Seq<int>,
    output: Seq<int>,
) -> (int, (Seq<int>, Seq<int>, Seq<int>));

impl Sponge {
    /// The state after one field element is absorbed.
    #[verifier::opaque]
    pub open spec fn observe(self, x: int) -> Sponge {
        let s = duplex_observe(self.state, self.input, self.output, x);
        Sponge { state: s.0, input: s.1, output: s.2 }
    }

    /// The next field element drawn.
    #[verifier::opaque]
    pub open spec fn drawn(self) -> int {
        duplex_sample(self.state, self.input, self.output).0
    }

    /// The state after one field element is drawn.
    #[verifier::opaque]
    pub open spec fn after_draw(self) -> Sponge {
        let s = duplex_sample(self.state, self.input, self.output).1;
        Sponge { state: s.0, input: s.1, output: s.2 }
    }

    /// The state after a sequence of field elements is absorbed, in order.
    pub open spec fn observe_all(self, xs: Seq<int>) -> Sponge
        decreases xs.len(),
    {
        if xs.len() == 0 {
            self
        } else {
            self.observe_all(xs.drop_last()).observe(xs.last())
        }
    }

    /// The state after an extension element is absorbed, lowest coefficient first.
    #[verifier::opaque]
    pub open spec fn observe_ext(self, e: E4) -> Sponge {
        self.observe(e.c0).observe(e.c1).observe(e.c2).observe(e.c3)
    }

    /// The state after a sequence of extension elements is absorbed, in order.
    pub open spec fn observe_exts(self, es: Seq<E4>) -> Sponge
        decreases es.len(),
    {
        if es.len() == 0 {
            self
        } else {
            self.observe_exts(es.drop_last()).observe_ext(es.last())
        }
    }

    /// The next extension element drawn, lowest coefficient first.
    #[verifier::opaque]
    pub open spec fn drawn_ext(self) -> E4 {
        let s1 = self.after_draw();
        let s2 = s1.after_draw();
        let s3 = s2.after_draw();
        E4 { c0: self.drawn(), c1: s1.drawn(), c2: s2.drawn(), c3: s3.drawn() }
    }

    /// The state after an extension element is drawn.
    #[verifier::opaque]
    pub open spec fn after_draw_ext(self) -> Sponge {
        self.after_draw().after_draw().after_draw().after_draw()
    }

    /// The state after `n` extension elements are drawn.
    pub open spec fn after_draw_exts(self, n: nat) -> Sponge
        decreases n,
    {
        if n == 0 {
            self
        } else {
            self.after_draw_exts((n - 1) as nat).after_draw_ext()
        }
    }

    /// The next `n` extension elements drawn.
    pub open spec fn drawn_exts(self, n: nat) -> Seq<E4> {
        Seq::new(n, |i: int| self.after_draw_exts(i as nat).drawn_ext())
    }

    /// The next number of `bits` bits drawn: the low bits of one field element.
    #[verifier::opaque]
    pub open spec fn drawn_bits(self, bits: nat) -> int {
        self.drawn() % pow2(bits) as int
    }

    /// The state after `n` numbers are drawn.
    pub open spec fn after_draws(self, n: nat) -> Sponge
        decreases n,
    {
        if n == 0 {
            self
        } else {
            self.after_draws((n - 1) as nat).after_draw()
        }
    }

    /// The next `n` numbers of `bits` bits drawn.
    pub open spec fn drawn_indices(self, bits: nat, n: nat) -> Seq<int> {
        Seq::new(n, |i: int| self.after_draws(i as nat).drawn_bits(bits))
    }

    /// Whether `witness` is a proof of work of `bits` bits: the next `bits` bits
    /// drawn after it is absorbed are zero. Zero bits ask for no work.
    #[verifier::opaque]
    pub open spec fn pow_ok(self, bits: nat, witness: int) -> bool {
        bits == 0 || self.observe(witness).drawn_bits(bits) == 0
    }

    /// The state after a proof of work is checked.
    #[verifier::opaque]
    pub open spec fn after_pow(self, bits: nat, witness: int) -> Sponge {
        if bits == 0 {
            self
        } else {
            self.observe(witness).after_draw()
        }
    }

    /// The state of a fresh transcript.
    pub open spec fn fresh() -> Sponge {
        Sponge { state: Seq::new(16, |i: int| 0int), input: Seq::empty(), output: Seq::empty() }
    }
}

/// A transcript that both sides of the protocol replay.
#[derive(Debug)]
pub struct Transcript {
    /// The sixteen elements of the sponge.
    pub sponge: Vec<Felt>,
    /// Elements observed and not yet absorbed.
    pub input: Vec<Felt>,
    /// Elements squeezed and not yet drawn.
    pub output: Vec<Felt>,
}

impl View for Transcript {
    type V = Sponge;

    open spec fn view(&self) -> Sponge {
        Sponge {
            state: fvals(self.sponge@),
            input: fvals(self.input@),
            output: fvals(self.output@),
        }
    }
}

impl Transcript {
    /// The sponge has full width, and the pending inputs never fill the rate.
    pub open spec fn wf(&self) -> bool {
        &&& self.sponge@.len() == 16
        &&& self.input@.len() < 8
    }
}

/// `DuplexChallenger::observe` for one element of `KoalaBear`. The claim is that
/// the new state is a function of the old one and of the element, that the sponge
/// keeps its width, and that the pending inputs are absorbed as soon as there are
/// eight of them.
/// The permutation is `default_koalabear_poseidon2_16`, with the round constants of
/// `p3_koala_bear`: challenges of a permutation with other constants are not the same.
#[verifier::external_body]
fn duplex_observe_call(t: &mut Transcript, x: Felt)
    requires
        old(t).wf(),
    ensures
        final(t).wf(),
        (fvals(final(t).sponge@), fvals(final(t).input@), fvals(final(t).output@))
            == duplex_observe(
            fvals(old(t).sponge@),
            fvals(old(t).input@),
            fvals(old(t).output@),
            x@,
        ),
{
    let kb = |f: &Felt| KoalaBear::from_u32(f.value());
    let back = |k: &KoalaBear| Felt::new(k.as_canonical_u32());
    let mut c = InnerChallenger {
        sponge_state: core::array::from_fn(|i| kb(&t.sponge[i])),
        input_buffer: t.input.iter().map(kb).collect(),
        output_buffer: t.output.iter().map(kb).collect(),
        permutation: default_koalabear_poseidon2_16(),
    };
    c.observe(kb(&x));
    t.sponge = c.sponge_state.iter().map(back).collect();
    t.input = c.input_buffer.iter().map(back).collect();
    t.output = c.output_buffer.iter().map(back).collect();
}

/// `DuplexChallenger::sample` for one element of `KoalaBear`. The claim is that
/// the element and the new state are functions of the old state, that the sponge
/// keeps its width, and that no input is left pending after a duplexing step.
/// The permutation is `default_koalabear_poseidon2_16`, with the round constants of
/// `p3_koala_bear`: challenges of a permutation with other constants are not the same.
#[verifier::external_body]
fn duplex_sample_call(t: &mut Transcript) -> (r: Felt)
    requires
        old(t).wf(),
    ensures
        final(t).wf(),
        (r@, (fvals(final(t).sponge@), fvals(final(t).input@), fvals(final(t).output@)))
            == duplex_sample(
            fvals(old(t).sponge@),
            fvals(old(t).input@),
            fvals(old(t).output@),
        ),
{
    let kb = |f: &Felt| KoalaBear::from_u32(f.value());
    let back = |k: &KoalaBear| Felt::new(k.as_canonical_u32());
    let mut c = InnerChallenger {
        sponge_state: core::array::from_fn(|i| kb(&t.sponge[i])),
        input_buffer: t.input.iter().map(kb).collect(),
        output_buffer: t.output.iter().map(kb).collect(),
        permutation: default_koalabear_poseidon2_16(),
    };
    let r = back(&c.sample());
    t.sponge = c.sponge_state.iter().map(back).collect();
    t.input = c.input_buffer.iter().map(back).collect();
    t.output = c.output_buffer.iter().map(back).collect();
    r
}

/// A copy of a sequence of field elements.
pub fn copy_felts(s: &Vec<Felt>) -> (r: Vec<Felt>)
    ensures
        r@ == s@,
{
    let mut r: Vec<Felt> = Vec::new();
    let mut i: usize = 0;
    while i < s.len()
        invariant
            i <= s@.len(),
            r@ == s@.take(i as int),
        decreases s@.len() - i,
    {
        r.push(s[i]);
        i = i + 1;
        proof {
            assert(s@.take(i as int) =~= s@.take(i - 1).push(s@[i - 1]));
        }
    }
    proof {
        assert(s@.take(i as int) =~= s@);
    }
    r
}

impl Transcript {
    /// A transcript that has seen nothing.
    pub fn new() -> (r: Transcript)
        ensures
            r.wf(),
            r@ == Sponge::fresh(),
    {
        let mut sponge: Vec<Felt> = Vec::new();
        let mut i: usize = 0;
        while i < 16
            invariant
                i <= 16,
                sponge@.len() == i,
                forall|j: int| 0 <= j < i ==> (#[trigger] sponge@[j])@ == 0,
            decreases 16 - i,
        {
            sponge.push(Felt::zero());
            i = i + 1;
        }
        let r = Transcript { sponge, input: Vec::new(), output: Vec::new() };
        proof {
            assert(r@.state =~= Sponge::fresh().state);
            assert(r@.input =~= Sponge::fresh().input);
            assert(r@.output =~= Sponge::fresh().output);
        }
        r
    }

    /// A second transcript in the same state.
    pub fn duplicate(&self) -> (r: Transcript)
        ensures
            r@ == self@,
            r.wf() == self.wf(),
    {
        Transcript {
            sponge: copy_felts(&self.sponge),
            input: copy_felts(&self.input),
            output: copy_felts(&self.output),
        }
    }

    /// Absorbs one field element.
    pub fn observe(&mut self, x: Felt)
        requires
            old(self).wf(),
        ensures
            final(self).wf(),
            final(self)@ == old(self)@.observe(x@),
    {
        proof {
            reveal(Sponge::observe);
        }
        duplex_observe_call(self, x);
    }

    /// Absorbs field elements in order.
    pub fn observe_slice(&mut self, xs: &Vec<Felt>)
        requires
            old(self).wf(),
        ensures
            final(self).wf(),
            final(self)@ == old(self)@.observe_all(fvals(xs@)),
    {
        let ghost start = self@;
        let ghost all = fvals(xs@);
        let mut i: usize = 0;
        proof {
            assert(all.take(0) =~= Seq::<int>::empty());
        }
        while i < xs.len()
            invariant
                i <= xs@.len(),
                all == fvals(xs@),
                self.wf(),
                self@ == start.observe_all(all.take(i as int)),
            decreases xs@.len() - i,
        {
            self.observe(xs[i]);
            i = i + 1;
            proof {
                let t = all.take(i as int);
                assert(t.drop_last() =~= all.take(i - 1));
                assert(t.last() == xs@[i - 1]@);
            }
        }
        proof {
            assert(all.take(i as int) =~= all);
        }
    }

    /// Absorbs an extension element, lowest coefficient first.
    pub fn observe_algebra_element(&mut self, e: Ext)
        requires
            old(self).wf(),
        ensures
            final(self).wf(),
            final(self)@ == old(self)@.observe_ext(e@),
    {
        proof {
            reveal(Sponge::observe_ext);
        }
        self.observe(e.c0);
        self.observe(e.c1);
        self.observe(e.c2);
        self.observe(e.c3);
    }

    /// Absorbs extension elements in order.
    pub fn observe_algebra_slice(&mut self, es: &[Ext])
        requires
            old(self).wf(),
        ensures
            final(self).wf(),
            final(self)@ == old(self)@.observe_exts(evals(es@)),
    {
        let ghost start = self@;
        let ghost all = evals(es@);
        let mut i: usize = 0;
        proof {
            assert(all.take(0) =~= Seq::<E4>::empty());
        }
        while i < es.len()
            invariant
                i <= es@.len(),
                all == evals(es@),
                self.wf(),
                self@ == start.observe_exts(all.take(i as int)),
            decreases es@.len() - i,
        {
            self.observe_algebra_element(es[i]);
            i = i + 1;
            proof {
                let t = all.take(i as int);
                assert(t.drop_last() =~= all.take(i - 1));
                assert(t.last() == es@[i - 1]@);
            }
        }
        proof {
            assert(all.take(i as int) =~= all);
        }
    }

    /// Draws one field element.
    pub fn sample(&mut self) -> (r: Felt)
        requires
            old(self).wf(),
        ensures
            final(self).wf(),
            r@ == old(self)@.drawn(),
            final(self)@ == old(self)@.after_draw(),
    {
        proof {
            reveal(Sponge::drawn);
            reveal(Sponge::after_draw);
        }
        duplex_sample_call(self)
    }

    /// Draws an extension element, lowest coefficient first.
    pub fn sample_algebra_element(&mut self) -> (r: Ext)
        requires
            old(self).wf(),
        ensures
            final(self).wf(),
            r@ == old(self)@.drawn_ext(),
            final(self)@ == old(self)@.after_draw_ext(),
    {
        proof {
            reveal(Sponge::drawn_ext);
            reveal(Sponge::after_draw_ext);
        }
        let c0 = self.sample();
        let c1 = self.sample();
        let c2 = self.sample();
        let c3 = self.sample();
        Ext { c0, c1, c2, c3 }
    }

    /// Draws `n` extension elements.
    pub fn sample_point(&mut self, n: usize) -> (r: Vec<Ext>)
        requires
            old(self).wf(),
        ensures
            final(self).wf(),
            evals(r@) == old(self)@.drawn_exts(n as nat),
            final(self)@ == old(self)@.after_draw_exts(n as nat),
    {
        let ghost start = self@;
        let mut r: Vec<Ext> = Vec::new();
        let mut i: usize = 0;
        while i < n
            invariant
                i <= n,
                self.wf(),
                self@ == start.after_draw_exts(i as nat),
                r@.len() == i,
                forall|j: int|
                    0 <= j < i ==> (#[trigger] r@[j])@ == start.after_draw_exts(
                        j as nat,
                    ).drawn_ext(),
            decreases n - i,
        {
            let e = self.sample_algebra_element();
            r.push(e);
            i = i + 1;
        }
        proof {
            assert(evals(r@) =~= start.drawn_exts(n as nat));
        }
        r
    }

    /// Draws a number of `bits` bits.
    pub fn sample_bits(&mut self, bits: usize) -> (r: usize)
        requires
            old(self).wf(),
            bits <= 30,
        ensures
            final(self).wf(),
            r as int == old(self)@.drawn_bits(bits as nat),
            r < pow2(bits as nat),
            final(self)@ == old(self)@.after_draw(),
    {
        proof {
            reveal(Sponge::drawn_bits);
        }
        proof {
            vstd::arithmetic::power2::lemma2_to64();
            pow2_le(bits as nat, 30);
            vstd::arithmetic::power2::lemma_pow2_pos(bits as nat);
        }
        let x = self.sample();
        let m: usize = pow2_usize(bits);
        let v: u32 = x.value();
        (v as usize) % m
    }

    /// Draws `n` numbers of `bits` bits.
    pub fn sample_indices(&mut self, bits: usize, n: usize) -> (r: Vec<usize>)
        requires
            old(self).wf(),
            bits <= 30,
        ensures
            final(self).wf(),
            r@.len() == n,
            forall|i: int|
                0 <= i < n ==> (#[trigger] r@[i]) as int == old(self)@.drawn_indices(
                    bits as nat,
                    n as nat,
                )[i],
            forall|i: int| 0 <= i < n ==> (#[trigger] r@[i]) < pow2(bits as nat),
            final(self)@ == old(self)@.after_draws(n as nat),
    {
        let ghost start = self@;
        let mut r: Vec<usize> = Vec::new();
        let mut i: usize = 0;
        while i < n
            invariant
                i <= n,
                bits <= 30,
                self.wf(),
                self@ == start.after_draws(i as nat),
                r@.len() == i,
                forall|j: int|
                    0 <= j < i ==> (#[trigger] r@[j]) as int == start.drawn_indices(
                        bits as nat,
                        n as nat,
                    )[j],
                forall|j: int| 0 <= j < i ==> (#[trigger] r@[j]) < pow2(bits as nat),
            decreases n - i,
        {
            let x: usize = self.sample_bits(bits);
            r.push(x);
            i = i + 1;
        }
        r
    }

    /// Checks a proof of work and absorbs it.
    pub fn check_witness(&mut self, bits: usize, witness: Felt) -> (r: bool)
        requires
            old(self).wf(),
            bits <= 30,
        ensures
            final(self).wf(),
            r == old(self)@.pow_ok(bits as nat, witness@),
            final(self)@ == old(self)@.after_pow(bits as nat, witness@),
    {
        proof {
            reveal(Sponge::pow_ok);
            reveal(Sponge::after_pow);
        }
        if bits == 0 {
            true
        } else {
            self.observe(witness);
            let x: usize = self.sample_bits(bits);
            x == 0
        }
    }

    /// Searches for a proof of work: the smallest witness that passes, which is
    /// also absorbed, or `None` where no field element passes.
    pub fn grind(&mut self, bits: usize) -> (r: Option<Felt>)
        requires
            old(self).wf(),
            bits <= 30,
        ensures
            final(self).wf(),
            r is None ==> final(self)@ == old(self)@,
            r is None <==> forall|u: int|
                0 <= u < order() ==> !#[trigger] old(self)@.pow_ok(bits as nat, u),
            r matches Some(w) ==> {
                &&& old(self)@.pow_ok(bits as nat, w@)
                &&& forall|u: int| 0 <= u < w@ ==> !#[trigger] old(self)@.pow_ok(bits as nat, u)
                &&& final(self)@ == old(self)@.after_pow(bits as nat, w@)
            },
    {
        let ghost start = self@;
        let mut c: u32 = 0;
        while c < ORDER
            invariant
                c <= ORDER,
                bits <= 30,
                self.wf(),
                self@ == start,
                start == old(self)@,
                forall|u: int| 0 <= u < c ==> !#[trigger] start.pow_ok(bits as nat, u),
            decreases ORDER - c,
        {
            let w = Felt::new(c);
            proof {
                vstd::arithmetic::div_mod::lemma_small_mod(c as nat, order() as nat);
            }
            let mut trial = self.duplicate();
            if trial.check_witness(bits, w) {
                *self = trial;
                proof {
                    crate::felt::felt_canonical(w);
                }
                return Some(w);
            }
            c = c + 1;
        }
        None
    }
}

} // verus!
