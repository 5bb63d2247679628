//! Equality of integer gadgets, enforced bit by bit.
use crate::boolean::Boolean;
use crate::cs::{ConstraintSystem, ConstraintSystemView};
use crate::uint::prim_uint::PrimUInt;
use crate::uint::UInt;
use ark_relations::gr1cs::SynthesisError;
use vstd::prelude::*;

verus! {

/// The run of the first `n` bit equalities of `a` and `b`, from the system
/// `cs` on: the system that it leaves behind, and what it returns. The run
/// goes from the least significant bit up and ends at the first equality
/// that fails.
pub open spec fn equal_run(a: Seq<Boolean>, b: Seq<Boolean>, cs: ConstraintSystemView, n: nat) -> (
    ConstraintSystemView,
    Result<(), SynthesisError>,
)
    decreases n,
{
    if n == 0 {
        (cs, Ok(()))
    } else {
        let (before, r) = equal_run(a, b, cs, (n - 1) as nat);
        if r is Err {
            (before, r)
        } else {
            (
                Boolean::equal_effect(a[n - 1], b[n - 1], before),
                Boolean::equal_result(a[n - 1], b[n - 1], before),
            )
        }
    }
}

/// Whether the bits of `a` and `b` hold the same values in `cs`, place by
/// place, over the first `n` places.
pub open spec fn same_values(a: Seq<Boolean>, b: Seq<Boolean>, cs: ConstraintSystemView, n: nat) -> bool {
    forall|i: int| 0 <= i < n ==> (#[trigger] a[i]).value_in(cs) == b[i].value_in(cs)
}

/// A run that has failed goes no further: it keeps its error, and the
/// system stays as the failure left it.
pub proof fn lemma_equal_run_stops(a: Seq<Boolean>, b: Seq<Boolean>, cs: ConstraintSystemView, k: nat, n: nat)
    requires
        k <= n,
        equal_run(a, b, cs, k).1 is Err,
    ensures
        equal_run(a, b, cs, n) == equal_run(a, b, cs, k),
    decreases n,
{
    if k < n {
        lemma_equal_run_stops(a, b, cs, k, (n - 1) as nat);
    }
}

impl<const N: usize, T: PrimUInt> UInt<N, T> {
    /// Enforces that `self` and `other` hold the same bit at every place.
    ///
    /// From the least significant bit up, the equality of the two bits at
    /// each place is enforced in `cs`; this adds no variable. The call ends
    /// at the first place that fails: with `Unsatisfiable` where two
    /// constants differ, with `AssignmentMissing` where `cs` does not know a
    /// variable bit. Where it succeeds, `cs` is satisfied afterwards exactly
    /// if it was before and the bits hold the same values.
    pub fn enforce_equal(&self, other: &Self, cs: &mut ConstraintSystem) -> (r: Result<(), SynthesisError>)
        ensures
            final(cs)@ == equal_run(self@.bits, other@.bits, old(cs)@, N as nat).0,
            r == equal_run(self@.bits, other@.bits, old(cs)@, N as nat).1,
            final(cs)@.extends(old(cs)@),
            final(cs)@.instance == old(cs)@.instance,
            final(cs)@.witness == old(cs)@.witness,
            r is Ok ==> (final(cs)@.satisfied() <==> old(cs)@.satisfied() && same_values(
                self@.bits,
                other@.bits,
                old(cs)@,
                N as nat,
            )),
    {
        let ghost a = self@.bits;
        let ghost b = other@.bits;
        let ghost base = cs@;
        let mut i: usize = 0;
        while i < N
            invariant
                i <= N,
                self@.bits == a,
                other@.bits == b,
                base == old(cs)@,
                cs@ == equal_run(a, b, base, i as nat).0,
                equal_run(a, b, base, i as nat).1 is Ok,
                cs@.extends(base),
                cs@.instance == base.instance,
                cs@.witness == base.witness,
                cs@.satisfied() <==> base.satisfied() && same_values(a, b, base, i as nat),
            decreases N - i,
        {
            let ghost before = cs@;
            let left = self.bits()[i];
            let right = other.bits()[i];
            match left.enforce_equal(&right, cs) {
                Ok(()) => {
                    proof {
                        assert(left.value_in(before) == left.value_in(base));
                        assert(right.value_in(before) == right.value_in(base));
                        if same_values(a, b, base, (i + 1) as nat) {
                            assert(same_values(a, b, base, i as nat));
                            assert(a[i as int].value_in(base) == b[i as int].value_in(base));
                        }
                        if same_values(a, b, base, i as nat) && a[i as int].value_in(base) == b[i as int].value_in(
                            base,
                        ) {
                            assert(same_values(a, b, base, (i + 1) as nat));
                        }
                    }
                },
                Err(e) => {
                    proof {
                        lemma_equal_run_stops(a, b, base, (i + 1) as nat, N as nat);
                    }
                    return Err(e);
                },
            }
            i += 1;
        }
        Ok(())
    }
}

} // verus!
