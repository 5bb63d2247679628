//! The unsigned integer gadget of fixed width.
pub mod and;
pub mod eq;
pub mod prim_uint;

use crate::allocation::{allocation_effect, lemma_allocation_effect_concat, yields, AllocVar, AllocationMode};
use crate::boolean::Boolean;
use crate::cs::{ConstraintSystem, ConstraintSystemView, Variable};
use crate::uint::prim_uint::PrimUInt;
use ark_relations::gr1cs::SynthesisError;
use vstd::prelude::*;

verus! {

/// An unsigned integer of `N` bits in a circuit.
///
/// `T` is the native integer type that shadows the gadget. A gadget always
/// holds exactly `N` bits, least significant first. Its native value is
/// present only where it was supplied or computed from present values, and
/// then it is what the bits hold in the system that the gadget was built
/// in: see [`UIntView::consistent`], which every operation of this crate
/// establishes or keeps.
#[derive(Debug)]
pub struct UInt<const N: usize, T: PrimUInt> {
    /// The bits, least significant first: always exactly `N` of them.
    bits: Vec<Boolean>,
    /// The native value, where it is known.
    value: Option<T>,
}

/// An unsigned integer of 8 bits in a circuit.
pub type UInt8 = UInt<8, u8>;

/// An unsigned integer of 16 bits in a circuit.
pub type UInt16 = UInt<16, u16>;

/// An unsigned integer of 32 bits in a circuit.
pub type UInt32 = UInt<32, u32>;

/// An unsigned integer of 64 bits in a circuit.
pub type UInt64 = UInt<64, u64>;

/// An unsigned integer of 128 bits in a circuit.
pub type UInt128 = UInt<128, u128>;

/// What an integer gadget holds, as mathematical values.
#[verifier::ext_equal]
pub struct UIntView<T> {
    /// The bits, least significant first.
    pub bits: Seq<Boolean>,
    /// The native value, where it is known.
    pub value: Option<T>,
}

impl<T: PrimUInt> UIntView<T> {
    /// Whether every bit is fixed into the circuit.
    pub open spec fn is_constant(self) -> bool {
        forall|i: int| 0 <= i < self.bits.len() ==> #[trigger] self.bits[i] is Constant
    }

    /// Whether the system `cs` knows the value of every bit: each bit is a
    /// constant or a variable of `cs`.
    pub open spec fn known_in(self, cs: ConstraintSystemView) -> bool {
        forall|i: int| 0 <= i < self.bits.len() ==> (#[trigger] self.bits[i]).value_in(cs) is Some
    }

    /// Whether the native value, where it is present, is what the bits hold
    /// in the system `cs`: then `cs` knows every bit, and bit `i` is the
    /// binary digit of weight `2^i` of the value.
    pub open spec fn consistent(self, cs: ConstraintSystemView) -> bool {
        self.value matches Some(v) ==> forall|i: int|
            0 <= i < self.bits.len() ==> (#[trigger] self.bits[i]).value_in(cs) == Some(v.spec_bit(i as nat))
    }

    /// The gadget of `n` bits that holds `v` as a constant.
    pub open spec fn constant(v: T, n: nat) -> UIntView<T> {
        UIntView { bits: Seq::new(n, |i: int| Boolean::Constant(v.spec_bit(i as nat))), value: Some(v) }
    }

    /// The first `n` binary digits of `v`, least significant first.
    pub open spec fn digits(v: T, n: nat) -> Seq<bool> {
        Seq::new(n, |i: int| v.spec_bit(i as nat))
    }

    /// The gadget of `n` bits that the allocation of `v` under `mode` yields
    /// in a system that was `base` before: the bits are allocated one after
    /// the other, least significant first.
    pub open spec fn image(v: T, n: nat, mode: AllocationMode, base: ConstraintSystemView) -> UIntView<T> {
        UIntView {
            bits: Seq::new(
                n,
                |i: int|
                    match mode {
                        AllocationMode::Constant => Boolean::Constant(v.spec_bit(i as nat)),
                        AllocationMode::Input => Boolean::Var(
                            Variable::Instance((base.instance.len() + i) as usize),
                        ),
                        AllocationMode::Witness => Boolean::Var(
                            Variable::Witness((base.witness.len() + i) as usize),
                        ),
                    },
            ),
            value: Some(v),
        }
    }
}

/// Round trip: the gadget that an allocation yields shadows the native
/// value it was allocated from, and its bits hold the binary digits of that
/// value in the system that the allocation leaves behind.
pub proof fn lemma_uint_round_trip<T: PrimUInt>(v: T, n: nat, mode: AllocationMode, base: ConstraintSystemView)
    requires
        allocation_effect(base, UIntView::digits(v, n), mode).bounded(),
    ensures
        UIntView::image(v, n, mode, base).value == Some(v),
        UIntView::image(v, n, mode, base).consistent(allocation_effect(base, UIntView::digits(v, n), mode)),
        UIntView::image(v, n, mode, base).known_in(allocation_effect(base, UIntView::digits(v, n), mode)),
        UIntView::image(v, n, mode, base).is_constant() <==> mode == AllocationMode::Constant || n == 0,
{
    let g = UIntView::image(v, n, mode, base);
    let after = allocation_effect(base, UIntView::digits(v, n), mode);
    assert forall|i: int| 0 <= i < g.bits.len() implies (#[trigger] g.bits[i]).value_in(after) == Some(
        v.spec_bit(i as nat),
    ) by {
        assert(UIntView::digits(v, n)[i] == v.spec_bit(i as nat));
    }
    if n > 0 && mode != AllocationMode::Constant {
        assert(!(g.bits[0] is Constant));
    }
}

/// A constant gadget is the image of its value under `Constant`, and it is
/// consistent with every system.
pub proof fn lemma_uint_constant<T: PrimUInt>(v: T, n: nat, cs: ConstraintSystemView)
    ensures
        UIntView::constant(v, n) == UIntView::image(v, n, AllocationMode::Constant, cs),
        UIntView::constant(v, n).is_constant(),
        UIntView::constant(v, n).consistent(cs),
        UIntView::constant(v, n).known_in(cs),
{
    assert(UIntView::constant(v, n) =~= UIntView::image(v, n, AllocationMode::Constant, cs));
}

/// A gadget that a system knows, or that is consistent with it, stays so in
/// every system that extends it: appending changes no bit that was known.
pub proof fn lemma_gadget_is_stable<T: PrimUInt>(
    g: UIntView<T>,
    earlier: ConstraintSystemView,
    later: ConstraintSystemView,
)
    requires
        later.extends(earlier),
    ensures
        g.consistent(earlier) ==> g.consistent(later),
        g.known_in(earlier) ==> g.known_in(later),
{
    if g.known_in(earlier) {
        assert forall|i: int| 0 <= i < g.bits.len() implies (#[trigger] g.bits[i]).value_in(later) is Some by {
            assert(g.bits[i].value_in(earlier) is Some);
        }
    }
    if g.consistent(earlier) && g.value is Some {
        let v = g.value.unwrap();
        assert forall|i: int| 0 <= i < g.bits.len() implies (#[trigger] g.bits[i]).value_in(later) == Some(
            v.spec_bit(i as nat),
        ) by {
            assert(g.bits[i].value_in(earlier) == Some(v.spec_bit(i as nat)));
        }
    }
}

impl<const N: usize, T: PrimUInt> View for UInt<N, T> {
    type V = UIntView<T>;

    closed spec fn view(&self) -> UIntView<T> {
        UIntView { bits: self.bits@, value: self.value }
    }
}

impl<const N: usize, T: PrimUInt> Clone for UInt<N, T> {
    fn clone(&self) -> (r: Self)
        ensures
            r@ == self@,
            r@.bits.len() == N,
    {
        proof {
            use_type_invariant(self);
        }
        let mut bits: Vec<Boolean> = Vec::new();
        let mut i: usize = 0;
        while i < self.bits.len()
            invariant
                i <= self.bits@.len(),
                self.bits@.len() == N,
                bits@ == self.bits@.take(i as int),
            decreases self.bits@.len() - i,
        {
            bits.push(self.bits[i]);
            assert(bits@ =~= self.bits@.take(i + 1));
            i += 1;
        }
        assert(bits@ =~= self.bits@);
        UInt { bits, value: self.value }
    }
}

impl<const N: usize, T: PrimUInt> UInt<N, T> {
    /// A gadget holds exactly `N` bits.
    #[verifier::type_invariant]
    pub closed spec fn well_formed(self) -> bool {
        self.bits@.len() == N
    }

    /// Constructs the gadget that holds `value` as a constant: it takes no
    /// variable of any constraint system.
    pub fn constant(value: T) -> (r: Self)
        ensures
            r@ == UIntView::constant(value, N as nat),
    {
        let mut bits: Vec<Boolean> = Vec::new();
        let mut i: usize = 0;
        while i < N
            invariant
                i <= N,
                bits@ == UIntView::constant(value, i as nat).bits,
            decreases N - i,
        {
            bits.push(Boolean::Constant(value.bit(i)));
            assert(bits@ =~= UIntView::constant(value, (i + 1) as nat).bits);
            i += 1;
        }
        UInt { bits, value: Some(value) }
    }

    /// Puts a gadget together from its `N` bits and its native value.
    pub(crate) fn from_parts(bits: Vec<Boolean>, value: Option<T>) -> (r: Self)
        requires
            bits@.len() == N,
        ensures
            r@ == (UIntView { bits: bits@, value }),
    {
        UInt { bits, value }
    }

    /// Puts a gadget together from wires, least significant first. The
    /// gadget has no native value: none was supplied, and none is made up.
    /// Returns `None` unless there are exactly `N` wires.
    pub fn from_bits_le(bits: Vec<Boolean>) -> (r: Option<Self>)
        ensures
            r is Some <==> bits@.len() == N,
            r matches Some(g) ==> g@ == (UIntView::<T> { bits: bits@, value: None }),
    {
        if bits.len() == N {
            Some(UInt { bits, value: None })
        } else {
            None
        }
    }

    /// The bits, least significant first.
    pub fn bits(&self) -> (r: &Vec<Boolean>)
        ensures
            r@ == self@.bits,
            r@.len() == N,
    {
        proof {
            use_type_invariant(self);
        }
        &self.bits
    }

    /// The native value. Fails with `AssignmentMissing` where it is not
    /// known.
    pub fn value(&self) -> (r: Result<T, SynthesisError>)
        ensures
            r == match self@.value {
                Some(v) => Ok::<T, SynthesisError>(v),
                None => Err(SynthesisError::AssignmentMissing),
            },
    {
        match self.value {
            Some(v) => Ok(v),
            None => Err(SynthesisError::AssignmentMissing),
        }
    }

    /// Whether every bit is fixed into the circuit.
    pub fn is_constant(&self) -> (r: bool)
        ensures
            r == self@.is_constant(),
    {
        let mut i: usize = 0;
        while i < self.bits.len()
            invariant
                i <= self.bits@.len(),
                forall|j: int| 0 <= j < i ==> #[trigger] self.bits@[j] is Constant,
            decreases self.bits@.len() - i,
        {
            if !self.bits[i].is_constant() {
                assert(!(self@.bits[i as int] is Constant));
                return false;
            }
            i += 1;
        }
        true
    }
}

impl<const N: usize, T: PrimUInt> AllocVar<T> for UInt<N, T> {
    open spec fn admits(v: &T) -> bool {
        true
    }

    open spec fn leaves(v: &T) -> Seq<bool> {
        UIntView::digits(*v, N as nat)
    }

    open spec fn is_image_of(&self, v: &T, mode: AllocationMode, base: ConstraintSystemView) -> bool {
        self@ == UIntView::image(*v, N as nat, mode, base)
    }

    /// Runs `f` once, whatever the mode, and allocates the `N` low binary
    /// digits of the value it produces, least significant first, each under
    /// `mode`. The gadget keeps the value as its native shadow.
    fn new_variable<'a, P: FnOnce() -> Result<&'a T, SynthesisError>>(
        cs: &mut ConstraintSystem,
        f: P,
        mode: AllocationMode,
    ) -> (r: Result<Self, SynthesisError>) where T: 'a
        ensures
            exists|o: Result<&'a T, SynthesisError>| #[trigger]
                f.ensures((), o) && match o {
                    Ok(v) => {
                        &&& r is Ok
                        &&& r.unwrap()@ == UIntView::image(*v, N as nat, mode, old(cs)@)
                        &&& final(cs)@ == allocation_effect(old(cs)@, UIntView::digits(*v, N as nat), mode)
                    },
                    Err(e) => r == Err::<Self, SynthesisError>(e) && final(cs)@ == old(cs)@,
                },
            r matches Ok(g) ==> g@.consistent(final(cs)@) && g@.known_in(final(cs)@),
            final(cs)@.extends(old(cs)@),
            old(cs)@.satisfied() ==> final(cs)@.satisfied(),
    {
        let o = f();
        match o {
            Ok(v) => {
                let ghost base = cs@;
                let mut bits: Vec<Boolean> = Vec::new();
                let mut i: usize = 0;
                assert(allocation_effect(base, UIntView::digits(*v, 0), mode) =~= base);
                while i < N
                    invariant
                        i <= N,
                        bits@ == UIntView::image(*v, i as nat, mode, base).bits,
                        cs@ == allocation_effect(base, UIntView::digits(*v, i as nat), mode),
                        cs@.extends(base),
                        base.satisfied() ==> cs@.satisfied(),
                    decreases N - i,
                {
                    let digit = v.bit(i);
                    let g = || -> (x: Result<&bool, SynthesisError>)
                        ensures
                            x == Ok::<&bool, SynthesisError>(&digit),
                        { Ok(&digit) };
                    let b = Boolean::new_variable(cs, g, mode);
                    proof {
                        lemma_allocation_effect_concat(base, UIntView::digits(*v, i as nat), seq![digit], mode);
                        assert(UIntView::digits(*v, i as nat) + seq![digit] =~= UIntView::digits(
                            *v,
                            (i + 1) as nat,
                        ));
                        cs.lemma_bounded();
                    }
                    bits.push(b.unwrap());
                    assert(bits@ =~= UIntView::image(*v, (i + 1) as nat, mode, base).bits);
                    i += 1;
                }
                let r = UInt { bits, value: Some(*v) };
                proof {
                    cs.lemma_bounded();
                    assert(r@ =~= UIntView::image(*v, N as nat, mode, base));
                    assert forall|j: int| 0 <= j < r@.bits.len() implies (#[trigger] r@.bits[j]).value_in(cs@)
                        == Some(v.spec_bit(j as nat)) by {
                        assert(UIntView::digits(*v, N as nat)[j] == v.spec_bit(j as nat));
                    }
                    assert forall|w: &'a T| #[trigger] yields(f, Ok(w)) implies {
                        &&& r.is_image_of(w, mode, base)
                        &&& cs@ == allocation_effect(base, Self::leaves(w), mode)
                    } by {
                        assert(f.ensures((), o));
                        assert(o == Ok::<&'a T, SynthesisError>(w));
                    }
                    assert(r.is_image_of(v, mode, base));
                }
                Ok(r)
            },
            Err(e) => Err(e),
        }
    }
}

} // verus!
