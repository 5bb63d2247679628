//! The bitwise AND of integer gadgets.
//!
//! The in-place form is the primitive: it replaces each bit of the left
//! operand by its conjunction with the bit of the right operand at the same
//! place. Every other form clones, or wraps a native scalar as a constant,
//! and delegates to it.
use crate::allocation::{allocation_effect, lemma_allocation_extends, AllocationMode};
use crate::boolean::Boolean;
use crate::cs::{ConstraintSystem, ConstraintSystemView};
use crate::uint::prim_uint::PrimUInt;
use crate::uint::{lemma_gadget_is_stable, lemma_uint_round_trip, UInt, UIntView};
use ark_relations::gr1cs::SynthesisError;
use vstd::prelude::*;

verus! {

/// The native value of a conjunction: present if and only if both operands'
/// values are.
pub open spec fn and_values<T: PrimUInt>(a: Option<T>, b: Option<T>) -> Option<T> {
    match (a, b) {
        (Some(x), Some(y)) => Some(x.spec_and(y)),
        _ => None,
    }
}

/// The run of the first `n` bit conjunctions of `a` and `b`, from the system
/// `cs` on: the system that it leaves behind, and whether it failed. The run
/// goes from the least significant bit up and ends at the first conjunction
/// that fails.
pub open spec fn and_run(a: Seq<Boolean>, b: Seq<Boolean>, cs: ConstraintSystemView, n: nat) -> (
    ConstraintSystemView,
    bool,
)
    decreases n,
{
    if n == 0 {
        (cs, false)
    } else {
        let (before, failed) = and_run(a, b, cs, (n - 1) as nat);
        if failed {
            (before, true)
        } else {
            (
                Boolean::and_effect(a[n - 1], b[n - 1], before),
                Boolean::and_result(a[n - 1], b[n - 1], before) is Err,
            )
        }
    }
}

/// The system that the first `n` bit conjunctions of `a` and `b` leave
/// behind.
pub open spec fn and_state(a: Seq<Boolean>, b: Seq<Boolean>, cs: ConstraintSystemView, n: nat) -> ConstraintSystemView {
    and_run(a, b, cs, n).0
}

/// Whether one of the first `n` bit conjunctions of `a` and `b` fails.
pub open spec fn and_failed(a: Seq<Boolean>, b: Seq<Boolean>, cs: ConstraintSystemView, n: nat) -> bool {
    and_run(a, b, cs, n).1
}

/// The first `n` bits of the conjunction of `a` and `b`: bit `i` is what the
/// conjunction of the two bits at place `i` returns, in the system that the
/// places below left behind.
pub open spec fn and_bits(a: Seq<Boolean>, b: Seq<Boolean>, cs: ConstraintSystemView, n: nat) -> Seq<Boolean> {
    Seq::new(
        n,
        |i: int|
            match Boolean::and_result(a[i], b[i], and_state(a, b, cs, i as nat)) {
                Ok(out) => out,
                Err(_) => a[i],
            },
    )
}

/// The conjunction of two gadgets, computed in a system that was `cs`
/// before.
pub open spec fn and_view<T: PrimUInt>(a: UIntView<T>, b: UIntView<T>, cs: ConstraintSystemView) -> UIntView<T> {
    UIntView { bits: and_bits(a.bits, b.bits, cs, a.bits.len()), value: and_values(a.value, b.value) }
}

/// The number of places among the first `n` at which not both bits are
/// constants: the places that cost a witness and a constraint.
pub open spec fn and_cost(a: Seq<Boolean>, b: Seq<Boolean>, n: nat) -> nat
    decreases n,
{
    if n == 0 {
        0
    } else {
        and_cost(a, b, (n - 1) as nat) + if a[n - 1] is Constant && b[n - 1] is Constant {
            0nat
        } else {
            1nat
        }
    }
}

/// A run that has failed goes no further: it stays failed, and the system
/// stays as the failure left it.
pub proof fn lemma_and_run_stops(a: Seq<Boolean>, b: Seq<Boolean>, cs: ConstraintSystemView, k: nat, n: nat)
    requires
        k <= n,
        and_failed(a, b, cs, k),
    ensures
        and_failed(a, b, cs, n),
        and_state(a, b, cs, n) == and_state(a, b, cs, k),
    decreases n,
{
    if k < n {
        lemma_and_run_stops(a, b, cs, k, (n - 1) as nat);
    }
}

/// A run only appends, and it keeps a satisfied system satisfied, as long
/// as the system it reaches can name its variables.
pub proof fn lemma_and_run_extends(a: Seq<Boolean>, b: Seq<Boolean>, cs: ConstraintSystemView, n: nat)
    requires
        and_state(a, b, cs, n).bounded(),
    ensures
        and_state(a, b, cs, n).extends(cs),
        cs.satisfied() ==> and_state(a, b, cs, n).satisfied(),
        forall|k: nat| k <= n ==> and_state(a, b, cs, n).extends(#[trigger] and_state(a, b, cs, k)),
    decreases n,
{
    if n > 0 {
        let before = and_state(a, b, cs, (n - 1) as nat);
        let after = and_state(a, b, cs, n);
        assert(after.extends(before));
        lemma_and_run_extends(a, b, cs, (n - 1) as nat);
        if cs.satisfied() {
            assert forall|i: int| 0 <= i < after.constraints.len() implies after.holds(
                #[trigger] after.constraints[i],
            ) by {
                if i < before.constraints.len() {
                    assert(after.constraints[i] == before.constraints[i]);
                    assert(before.holds(before.constraints[i]));
                }
            }
        }
        assert forall|k: nat| k <= n implies after.extends(#[trigger] and_state(a, b, cs, k)) by {
            if k < n {
                assert(before.extends(and_state(a, b, cs, k)));
            }
        }
    }
}

/// A run over bits that the system knows does not fail.
pub proof fn lemma_and_run_succeeds(a: Seq<Boolean>, b: Seq<Boolean>, cs: ConstraintSystemView, n: nat)
    requires
        n <= a.len(),
        n <= b.len(),
        forall|i: int| 0 <= i < n ==> (#[trigger] a[i]).value_in(cs) is Some,
        forall|i: int| 0 <= i < n ==> (#[trigger] b[i]).value_in(cs) is Some,
        and_state(a, b, cs, n).bounded(),
    ensures
        !and_failed(a, b, cs, n),
    decreases n,
{
    if n > 0 {
        let before = and_state(a, b, cs, (n - 1) as nat);
        let after = and_state(a, b, cs, n);
        assert(after.extends(before));
        lemma_and_run_succeeds(a, b, cs, (n - 1) as nat);
        lemma_and_run_extends(a, b, cs, (n - 1) as nat);
        assert(a[n - 1].value_in(cs) is Some);
        assert(b[n - 1].value_in(cs) is Some);
    }
}

/// Constant folding: a run over constants alone does not fail, leaves the
/// system as it was, and returns constants alone.
pub proof fn lemma_and_of_constants_is_free(
    a: Seq<Boolean>,
    b: Seq<Boolean>,
    cs: ConstraintSystemView,
    n: nat,
)
    requires
        n <= a.len(),
        n <= b.len(),
        forall|i: int| 0 <= i < n ==> #[trigger] a[i] is Constant,
        forall|i: int| 0 <= i < n ==> #[trigger] b[i] is Constant,
    ensures
        !and_failed(a, b, cs, n),
        and_state(a, b, cs, n) == cs,
        forall|i: int| 0 <= i < n ==> #[trigger] and_bits(a, b, cs, n)[i] is Constant,
    decreases n,
{
    if n > 0 {
        lemma_and_of_constants_is_free(a, b, cs, (n - 1) as nat);
        assert(a[n - 1] is Constant);
        assert(b[n - 1] is Constant);
        assert forall|i: int| 0 <= i < n implies #[trigger] and_bits(a, b, cs, n)[i] is Constant by {
            assert(a[i] is Constant);
            assert(b[i] is Constant);
        }
    }
}

/// The cost of a run that does not fail: one witness and one constraint for
/// each place at which not both bits are constants, and no public input.
pub proof fn lemma_and_run_cost(a: Seq<Boolean>, b: Seq<Boolean>, cs: ConstraintSystemView, n: nat)
    requires
        !and_failed(a, b, cs, n),
    ensures
        and_state(a, b, cs, n).instance == cs.instance,
        and_state(a, b, cs, n).witness.len() == cs.witness.len() + and_cost(a, b, n),
        and_state(a, b, cs, n).constraints.len() == cs.constraints.len() + and_cost(a, b, n),
    decreases n,
{
    if n > 0 {
        lemma_and_run_cost(a, b, cs, (n - 1) as nat);
    }
}

/// The cost of the conjunction of two freshly allocated gadgets is fixed by
/// their modes and their width: it is nothing if both are constants, and one
/// witness and one constraint for each bit otherwise, whatever the values
/// and whatever the system held before.
pub proof fn lemma_and_cost_by_modes<T: PrimUInt>(
    x: T,
    y: T,
    n: nat,
    mode_x: AllocationMode,
    mode_y: AllocationMode,
    before_x: ConstraintSystemView,
    before_y: ConstraintSystemView,
)
    ensures
        and_cost(
            UIntView::image(x, n, mode_x, before_x).bits,
            UIntView::image(y, n, mode_y, before_y).bits,
            n,
        ) == if mode_x == AllocationMode::Constant && mode_y == AllocationMode::Constant {
            0
        } else {
            n
        },
{
    let a = UIntView::image(x, n, mode_x, before_x).bits;
    let b = UIntView::image(y, n, mode_y, before_y).bits;
    lemma_and_cost_uniform(a, b, n, mode_x == AllocationMode::Constant && mode_y == AllocationMode::Constant);
}

/// The cost over places that are all of one kind: nothing if both bits are
/// constants at each place, one for each place if at no place both are.
pub proof fn lemma_and_cost_uniform(a: Seq<Boolean>, b: Seq<Boolean>, n: nat, both_constant: bool)
    requires
        n <= a.len(),
        n <= b.len(),
        forall|i: int| 0 <= i < n ==> (#[trigger] a[i] is Constant && b[i] is Constant) == both_constant,
    ensures
        and_cost(a, b, n) == if both_constant {
            0
        } else {
            n
        },
    decreases n,
{
    if n > 0 {
        lemma_and_cost_uniform(a, b, (n - 1) as nat, both_constant);
        assert((a[n - 1] is Constant && b[n - 1] is Constant) == both_constant);
    }
}

/// The conjunction of two gadgets that were allocated one after the other
/// in the same system: it does not fail, and its result shadows the bitwise
/// AND of the two native values and is consistent with the system that it
/// leaves behind.
pub proof fn lemma_and_of_allocated<T: PrimUInt>(
    x: T,
    y: T,
    n: nat,
    mode_x: AllocationMode,
    mode_y: AllocationMode,
    base: ConstraintSystemView,
)
    requires
        ({
            let after_x = allocation_effect(base, UIntView::digits(x, n), mode_x);
            let after_y = allocation_effect(after_x, UIntView::digits(y, n), mode_y);
            let a = UIntView::image(x, n, mode_x, base);
            let b = UIntView::image(y, n, mode_y, after_x);
            and_state(a.bits, b.bits, after_y, n).bounded()
        }),
    ensures
        ({
            let after_x = allocation_effect(base, UIntView::digits(x, n), mode_x);
            let after_y = allocation_effect(after_x, UIntView::digits(y, n), mode_y);
            let a = UIntView::image(x, n, mode_x, base);
            let b = UIntView::image(y, n, mode_y, after_x);
            &&& !and_failed(a.bits, b.bits, after_y, n)
            &&& and_view(a, b, after_y).value == Some(x.spec_and(y))
            &&& and_view(a, b, after_y).consistent(and_state(a.bits, b.bits, after_y, n))
            &&& base.satisfied() ==> and_state(a.bits, b.bits, after_y, n).satisfied()
        }),
{
    let after_x = allocation_effect(base, UIntView::digits(x, n), mode_x);
    let after_y = allocation_effect(after_x, UIntView::digits(y, n), mode_y);
    let a = UIntView::image(x, n, mode_x, base);
    let b = UIntView::image(y, n, mode_y, after_x);
    lemma_and_run_extends(a.bits, b.bits, after_y, n);
    lemma_allocation_extends(after_x, UIntView::digits(y, n), mode_y);
    lemma_allocation_extends(base, UIntView::digits(x, n), mode_x);
    lemma_uint_round_trip(x, n, mode_x, base);
    lemma_uint_round_trip(y, n, mode_y, after_x);
    lemma_gadget_is_stable(a, after_x, after_y);
    lemma_and_is_correct(a, b, after_y);
}

/// What an allocation of two gadgets and their conjunction appends is fixed
/// by the modes and the width alone: the same for all values, and from
/// whatever system the run starts. Each gadget that is not a constant costs
/// one variable of its kind and one constraint for each bit, and the
/// conjunction costs one witness and one constraint for each bit unless both
/// gadgets are constants.
pub proof fn lemma_allocate_then_and_cost<T: PrimUInt>(
    x: T,
    y: T,
    n: nat,
    mode_x: AllocationMode,
    mode_y: AllocationMode,
    base: ConstraintSystemView,
)
    requires
        ({
            let after_x = allocation_effect(base, UIntView::digits(x, n), mode_x);
            let after_y = allocation_effect(after_x, UIntView::digits(y, n), mode_y);
            let a = UIntView::image(x, n, mode_x, base);
            let b = UIntView::image(y, n, mode_y, after_x);
            and_state(a.bits, b.bits, after_y, n).bounded()
        }),
    ensures
        ({
            let after_x = allocation_effect(base, UIntView::digits(x, n), mode_x);
            let after_y = allocation_effect(after_x, UIntView::digits(y, n), mode_y);
            let a = UIntView::image(x, n, mode_x, base);
            let b = UIntView::image(y, n, mode_y, after_x);
            let last = and_state(a.bits, b.bits, after_y, n);
            let gates = if mode_x == AllocationMode::Constant && mode_y == AllocationMode::Constant {
                0
            } else {
                n
            };
            let inputs = |mode: AllocationMode| if mode == AllocationMode::Input { n } else { 0 };
            let witnesses = |mode: AllocationMode| if mode == AllocationMode::Witness { n } else { 0 };
            let rows = |mode: AllocationMode| if mode == AllocationMode::Constant { 0 } else { n };
            &&& last.instance.len() == base.instance.len() + inputs(mode_x) + inputs(mode_y)
            &&& last.witness.len() == base.witness.len() + witnesses(mode_x) + witnesses(mode_y) + gates
            &&& last.constraints.len() == base.constraints.len() + rows(mode_x) + rows(mode_y) + gates
        }),
{
    let after_x = allocation_effect(base, UIntView::digits(x, n), mode_x);
    let after_y = allocation_effect(after_x, UIntView::digits(y, n), mode_y);
    let a = UIntView::image(x, n, mode_x, base);
    let b = UIntView::image(y, n, mode_y, after_x);
    lemma_and_of_allocated(x, y, n, mode_x, mode_y, base);
    lemma_and_run_cost(a.bits, b.bits, after_y, n);
    lemma_and_cost_by_modes(x, y, n, mode_x, mode_y, base, after_x);
}

/// The conjunction is correct: for operands that are consistent with the
/// system and whose native values are known, it does not fail, its bits
/// hold the binary digits of the bitwise AND of the native values, and so
/// the result is again consistent.
pub proof fn lemma_and_is_correct<T: PrimUInt>(a: UIntView<T>, b: UIntView<T>, cs: ConstraintSystemView)
    requires
        a.bits.len() == b.bits.len(),
        a.value is Some,
        b.value is Some,
        a.consistent(cs),
        b.consistent(cs),
        and_state(a.bits, b.bits, cs, a.bits.len()).bounded(),
    ensures
        !and_failed(a.bits, b.bits, cs, a.bits.len()),
        and_view(a, b, cs).value == Some(a.value.unwrap().spec_and(b.value.unwrap())),
        and_view(a, b, cs).consistent(and_state(a.bits, b.bits, cs, a.bits.len())),
{
    let n = a.bits.len();
    let x = a.value.unwrap();
    let y = b.value.unwrap();
    let last = and_state(a.bits, b.bits, cs, n);
    let out = and_view(a, b, cs);
    lemma_and_run_succeeds(a.bits, b.bits, cs, n);
    lemma_and_run_extends(a.bits, b.bits, cs, n);
    assert forall|i: int| 0 <= i < n implies (#[trigger] out.bits[i]).value_in(last) == Some(
        x.spec_and(y).spec_bit(i as nat),
    ) by {
        let before = and_state(a.bits, b.bits, cs, i as nat);
        let after = and_state(a.bits, b.bits, cs, (i + 1) as nat);
        assert(last.extends(before));
        assert(last.extends(after));
        lemma_and_run_extends(a.bits, b.bits, cs, i as nat);
        lemma_and_run_succeeds(a.bits, b.bits, cs, i as nat);
        assert(a.bits[i].value_in(cs) == Some(x.spec_bit(i as nat)));
        assert(b.bits[i].value_in(cs) == Some(y.spec_bit(i as nat)));
        x.lemma_and_bit(y, i as nat);
        assert(out.bits[i].value_in(after) == Some(x.spec_and(y).spec_bit(i as nat)));
    }
}

impl<const N: usize, T: PrimUInt> UInt<N, T> {
    /// Outputs `self & other`, in the system `cs`, and leaves both operands
    /// as they are.
    ///
    /// This is the in-place form applied to a clone of `self`.
    pub fn _and(&self, other: &Self, cs: &mut ConstraintSystem) -> (r: Result<Self, SynthesisError>)
        ensures
            final(cs)@ == and_state(self@.bits, other@.bits, old(cs)@, N as nat),
            r is Err <==> and_failed(self@.bits, other@.bits, old(cs)@, N as nat),
            r matches Err(e) ==> e == SynthesisError::AssignmentMissing,
            r matches Ok(out) ==> out@ == and_view(self@, other@, old(cs)@) && out@.known_in(final(cs)@),
            r is Ok && self@.consistent(old(cs)@) && other@.consistent(old(cs)@)
                ==> r.unwrap()@.consistent(final(cs)@),
            final(cs)@.extends(old(cs)@),
            old(cs)@.satisfied() ==> final(cs)@.satisfied(),
    {
        let mut result = self.clone();
        match result._and_in_place(other, cs) {
            Ok(()) => Ok(result),
            Err(e) => Err(e),
        }
    }

    /// Sets `self = self & other`, in the system `cs`.
    ///
    /// From the least significant bit up, each bit of `self` is replaced by
    /// its conjunction with the bit of `other` at the same place. A place at
    /// which both bits are constants folds into a constant and costs
    /// nothing; every other place costs one new witness and one
    /// multiplicative constraint. The native value becomes the bitwise AND
    /// of both native values if both are known, and is unknown otherwise.
    ///
    /// The call fails with `AssignmentMissing` at the first place at which
    /// `cs` does not know a variable bit. Then `self` is as it was, and `cs`
    /// keeps what the places below have appended.
    pub fn _and_in_place(&mut self, other: &Self, cs: &mut ConstraintSystem) -> (r: Result<(), SynthesisError>)
        ensures
            final(cs)@ == and_state(old(self)@.bits, other@.bits, old(cs)@, N as nat),
            r is Err <==> and_failed(old(self)@.bits, other@.bits, old(cs)@, N as nat),
            r matches Err(e) ==> e == SynthesisError::AssignmentMissing && final(self)@ == old(self)@,
            r is Ok ==> final(self)@ == and_view(old(self)@, other@, old(cs)@) && final(self)@.known_in(
                final(cs)@,
            ),
            r is Ok && old(self)@.consistent(old(cs)@) && other@.consistent(old(cs)@)
                ==> final(self)@.consistent(final(cs)@),
            final(cs)@.extends(old(cs)@),
            old(cs)@.satisfied() ==> final(cs)@.satisfied(),
    {
        proof {
            use_type_invariant(&*self);
            use_type_invariant(other);
        }
        let ghost a = self@.bits;
        let ghost b = other@.bits;
        let ghost base = cs@;
        let mut bits: Vec<Boolean> = Vec::new();
        let mut i: usize = 0;
        while i < N
            invariant
                i <= N,
                a.len() == N,
                b.len() == N,
                self@ == old(self)@,
                self@.bits == a,
                other@.bits == b,
                base == old(cs)@,
                cs@ == and_state(a, b, base, i as nat),
                !and_failed(a, b, base, i as nat),
                bits@ == and_bits(a, b, base, i as nat),
                cs@.extends(base),
                base.satisfied() ==> cs@.satisfied(),
                forall|j: int| 0 <= j < i ==> (#[trigger] bits@[j]).value_in(cs@) is Some,
                forall|j: int|
                    0 <= j < i && a[j].value_in(base) is Some && b[j].value_in(base) is Some ==> (
                    #[trigger] bits@[j]).value_in(cs@) == Some(
                        a[j].value_in(base).unwrap() && b[j].value_in(base).unwrap(),
                    ),
            decreases N - i,
        {
            let ghost before = cs@;
            let left = self.bits()[i];
            let right = other.bits()[i];
            match left.and(&right, cs) {
                Ok(out) => {
                    let ghost earlier = bits@;
                    bits.push(out);
                    proof {
                        assert(bits@ =~= and_bits(a, b, base, (i + 1) as nat));
                        assert forall|j: int| 0 <= j < i + 1 implies (#[trigger] bits@[j]).value_in(cs@) is Some by {
                            if j < i {
                                assert(bits@[j] == earlier[j]);
                                assert(earlier[j].value_in(before) is Some);
                            }
                        }
                        assert forall|j: int|
                            0 <= j < i + 1 && a[j].value_in(base) is Some && b[j].value_in(base) is Some implies (
                        #[trigger] bits@[j]).value_in(cs@) == Some(
                            a[j].value_in(base).unwrap() && b[j].value_in(base).unwrap(),
                        ) by {
                            if j < i {
                                assert(bits@[j] == earlier[j]);
                                assert(earlier[j].value_in(before) is Some);
                            }
                        }
                    }
                },
                Err(e) => {
                    proof {
                        assert(and_failed(a, b, base, (i + 1) as nat));
                        lemma_and_run_stops(a, b, base, (i + 1) as nat, N as nat);
                    }
                    return Err(e);
                },
            }
            i += 1;
        }
        let value = match (self.value(), other.value()) {
            (Ok(x), Ok(y)) => Some(x.and(y)),
            _ => None,
        };
        proof {
            if self@.value is Some && other@.value is Some && self@.consistent(base) && other@.consistent(base) {
                let x = self@.value.unwrap();
                let y = other@.value.unwrap();
                assert forall|j: int| 0 <= j < N implies (#[trigger] bits@[j]).value_in(cs@) == Some(
                    x.spec_and(y).spec_bit(j as nat),
                ) by {
                    assert(a[j].value_in(base) == Some(x.spec_bit(j as nat)));
                    assert(b[j].value_in(base) == Some(y.spec_bit(j as nat)));
                    x.lemma_and_bit(y, j as nat);
                }
            }
        }
        *self = UInt::from_parts(bits, value);
        Ok(())
    }

    /// Outputs `self & other` for operands that `cs` knows: the form that
    /// cannot fail.
    pub fn bitand(&self, other: &Self, cs: &mut ConstraintSystem) -> (out: Self)
        requires
            self@.known_in(old(cs)@),
            other@.known_in(old(cs)@),
        ensures
            out@ == and_view(self@, other@, old(cs)@),
            out@.known_in(final(cs)@),
            final(cs)@ == and_state(self@.bits, other@.bits, old(cs)@, N as nat),
            self@.consistent(old(cs)@) && other@.consistent(old(cs)@) ==> out@.consistent(final(cs)@),
            final(cs)@.extends(old(cs)@),
            old(cs)@.satisfied() ==> final(cs)@.satisfied(),
    {
        let ghost base = cs@;
        let r = self._and(other, cs);
        proof {
            use_type_invariant(self);
            use_type_invariant(other);
            cs.lemma_bounded();
            lemma_and_run_succeeds(self@.bits, other@.bits, base, N as nat);
        }
        r.unwrap()
    }

    /// Sets `self = self & other` for operands that `cs` knows: the form
    /// that cannot fail.
    pub fn bitand_assign(&mut self, other: &Self, cs: &mut ConstraintSystem)
        requires
            old(self)@.known_in(old(cs)@),
            other@.known_in(old(cs)@),
        ensures
            final(self)@ == and_view(old(self)@, other@, old(cs)@),
            final(self)@.known_in(final(cs)@),
            final(cs)@ == and_state(old(self)@.bits, other@.bits, old(cs)@, N as nat),
            old(self)@.consistent(old(cs)@) && other@.consistent(old(cs)@) ==> final(self)@.consistent(
                final(cs)@,
            ),
            final(cs)@.extends(old(cs)@),
            old(cs)@.satisfied() ==> final(cs)@.satisfied(),
    {
        let ghost base = cs@;
        let ghost a = self@.bits;
        proof {
            use_type_invariant(&*self);
            use_type_invariant(other);
        }
        let r = self._and_in_place(other, cs);
        proof {
            cs.lemma_bounded();
            lemma_and_run_succeeds(a, other@.bits, base, N as nat);
        }
        r.unwrap()
    }

    /// Outputs `self & other` for a native `other`, which enters as a
    /// constant and so costs no variable and no constraint of its own.
    pub fn bitand_native(&self, other: T, cs: &mut ConstraintSystem) -> (out: Self)
        requires
            self@.known_in(old(cs)@),
        ensures
            out@ == and_view(self@, UIntView::constant(other, N as nat), old(cs)@),
            out@.known_in(final(cs)@),
            final(cs)@ == and_state(self@.bits, UIntView::constant(other, N as nat).bits, old(cs)@, N as nat),
            self@.consistent(old(cs)@) ==> out@.consistent(final(cs)@),
            final(cs)@.extends(old(cs)@),
            old(cs)@.satisfied() ==> final(cs)@.satisfied(),
    {
        let constant = UInt::constant(other);
        self.bitand(&constant, cs)
    }

    /// Sets `self = self & other` for a native `other`, which enters as a
    /// constant and so costs no variable and no constraint of its own.
    pub fn bitand_assign_native(&mut self, other: T, cs: &mut ConstraintSystem)
        requires
            old(self)@.known_in(old(cs)@),
        ensures
            final(self)@ == and_view(old(self)@, UIntView::constant(other, N as nat), old(cs)@),
            final(self)@.known_in(final(cs)@),
            final(cs)@ == and_state(
                old(self)@.bits,
                UIntView::constant(other, N as nat).bits,
                old(cs)@,
                N as nat,
            ),
            old(self)@.consistent(old(cs)@) ==> final(self)@.consistent(final(cs)@),
            final(cs)@.extends(old(cs)@),
            old(cs)@.satisfied() ==> final(cs)@.satisfied(),
    {
        let constant = UInt::constant(other);
        self.bitand_assign(&constant, cs)
    }
}

} // verus!
