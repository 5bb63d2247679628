//! The bit wire: a single bit of a circuit, fixed or variable.
use crate::allocation::{allocation_effect, yields, AllocVar, AllocationMode};
use crate::cs::{lemma_holds_is_stable, Constraint, ConstraintSystem, ConstraintSystemView, Operand, Variable};
use ark_relations::gr1cs::SynthesisError;
use vstd::prelude::*;

verus! {

/// A bit of a circuit.
#[derive(Clone, Copy, Debug, PartialEq, Eq, Hash, Structural)]
pub enum Boolean {
    /// A bit fixed into the circuit: no variable stands behind it.
    Constant(bool),
    /// A bit held by a variable of a constraint system.
    Var(Variable),
}

impl Boolean {
    /// The bit as one side of a constraint.
    pub open spec fn spec_operand(self) -> Operand {
        match self {
            Boolean::Constant(b) => Operand::Constant(b),
            Boolean::Var(v) => Operand::Variable(v),
        }
    }

    /// The value of the bit in a system, if the system knows it: a constant
    /// is known everywhere, a variable where it was allocated.
    pub open spec fn value_in(self, cs: ConstraintSystemView) -> Option<bool> {
        cs.operand_value(self.spec_operand())
    }

    /// What allocating the native bit `v` under `mode` yields in a system
    /// that was `base` before.
    pub open spec fn image(v: bool, mode: AllocationMode, base: ConstraintSystemView) -> Boolean {
        match mode {
            AllocationMode::Constant => Boolean::Constant(v),
            AllocationMode::Input => Boolean::Var(Variable::Instance(base.instance.len() as usize)),
            AllocationMode::Witness => Boolean::Var(Variable::Witness(base.witness.len() as usize)),
        }
    }

    /// What the conjunction of `a` and `b` returns in the system `cs`. Two
    /// constants fold into a constant. Otherwise the result is a fresh
    /// witness, unless `cs` does not know the value of an operand.
    pub open spec fn and_result(a: Boolean, b: Boolean, cs: ConstraintSystemView) -> Result<
        Boolean,
        SynthesisError,
    > {
        match (a, b) {
            (Boolean::Constant(x), Boolean::Constant(y)) => Ok(Boolean::Constant(x && y)),
            _ => if a.value_in(cs) is Some && b.value_in(cs) is Some {
                Ok(Boolean::Var(Variable::Witness(cs.witness.len() as usize)))
            } else {
                Err(SynthesisError::AssignmentMissing)
            },
        }
    }

    /// The system that the conjunction of `a` and `b` leaves behind. Two
    /// constants leave it as it was, and so does a failure. Otherwise it
    /// holds one more witness, assigned the conjunction of both values, and
    /// the one multiplicative constraint that binds it to the operands.
    pub open spec fn and_effect(a: Boolean, b: Boolean, cs: ConstraintSystemView) -> ConstraintSystemView {
        match (a, b) {
            (Boolean::Constant(_), Boolean::Constant(_)) => cs,
            _ => if a.value_in(cs) is Some && b.value_in(cs) is Some {
                cs.with_witness(a.value_in(cs).unwrap() && b.value_in(cs).unwrap()).with_constraint(
                    Constraint::Product {
                        left: a.spec_operand(),
                        right: b.spec_operand(),
                        out: Variable::Witness(cs.witness.len() as usize),
                    },
                )
            } else {
                cs
            },
        }
    }

    /// What enforcing the equality of `a` and `b` returns in the system `cs`.
    pub open spec fn equal_result(a: Boolean, b: Boolean, cs: ConstraintSystemView) -> Result<
        (),
        SynthesisError,
    > {
        match (a, b) {
            (Boolean::Constant(x), Boolean::Constant(y)) => if x == y {
                Ok(())
            } else {
                Err(SynthesisError::Unsatisfiable)
            },
            _ => if a.value_in(cs) is Some && b.value_in(cs) is Some {
                Ok(())
            } else {
                Err(SynthesisError::AssignmentMissing)
            },
        }
    }

    /// The system that enforcing the equality of `a` and `b` leaves behind:
    /// one more constraint, unless both are constants or the call fails.
    pub open spec fn equal_effect(a: Boolean, b: Boolean, cs: ConstraintSystemView) -> ConstraintSystemView {
        match (a, b) {
            (Boolean::Constant(_), Boolean::Constant(_)) => cs,
            _ => if a.value_in(cs) is Some && b.value_in(cs) is Some {
                cs.with_constraint(
                    Constraint::Equality { left: a.spec_operand(), right: b.spec_operand() },
                )
            } else {
                cs
            },
        }
    }

    /// A bit fixed into the circuit.
    pub fn constant(b: bool) -> (r: Boolean)
        ensures
            r == Boolean::Constant(b),
    {
        Boolean::Constant(b)
    }

    /// Whether the bit is fixed into the circuit.
    pub fn is_constant(&self) -> (r: bool)
        ensures
            r == (*self is Constant),
    {
        match self {
            Boolean::Constant(_) => true,
            Boolean::Var(_) => false,
        }
    }

    /// The bit as one side of a constraint.
    pub fn operand(&self) -> (o: Operand)
        ensures
            o == self.spec_operand(),
    {
        match self {
            Boolean::Constant(b) => Operand::Constant(*b),
            Boolean::Var(v) => Operand::Variable(*v),
        }
    }

    /// The value of the bit in `cs`. Fails with `AssignmentMissing` where the
    /// bit is a variable that `cs` does not hold.
    pub fn value(&self, cs: &ConstraintSystem) -> (r: Result<bool, SynthesisError>)
        ensures
            r == match self.value_in(cs@) {
                Some(b) => Ok::<bool, SynthesisError>(b),
                None => Err(SynthesisError::AssignmentMissing),
            },
    {
        match self {
            Boolean::Constant(b) => Ok(*b),
            Boolean::Var(v) => match cs.assigned_value(*v) {
                Some(b) => Ok(b),
                None => Err(SynthesisError::AssignmentMissing),
            },
        }
    }

    /// Outputs `self AND other`.
    ///
    /// Two constants fold into a constant, and `cs` stays as it was. In every
    /// other case the output is a new witness of `cs`, bound to the operands
    /// by one multiplicative constraint. The call fails, and leaves `cs` as
    /// it was, exactly where an operand is a variable that `cs` does not
    /// hold.
    pub fn and(&self, other: &Self, cs: &mut ConstraintSystem) -> (r: Result<Boolean, SynthesisError>)
        ensures
            r == Boolean::and_result(*self, *other, old(cs)@),
            final(cs)@ == Boolean::and_effect(*self, *other, old(cs)@),
            r matches Ok(out) ==> out.value_in(final(cs)@) == Some(
                self.value_in(old(cs)@).unwrap() && other.value_in(old(cs)@).unwrap(),
            ),
            final(cs)@.extends(old(cs)@),
            old(cs)@.satisfied() ==> final(cs)@.satisfied(),
    {
        match (self, other) {
            (Boolean::Constant(x), Boolean::Constant(y)) => Ok(Boolean::Constant(*x && *y)),
            _ => {
                let a = match self.value(cs) {
                    Ok(a) => a,
                    Err(e) => {
                        return Err(e);
                    },
                };
                let b = match other.value(cs) {
                    Ok(b) => b,
                    Err(e) => {
                        return Err(e);
                    },
                };
                let ghost before = cs@;
                let out = cs.new_witness_variable(a && b);
                let c = Constraint::Product { left: self.operand(), right: other.operand(), out };
                cs.enforce_constraint(c);
                proof {
                    let after = cs@;
                    assert(after.witness.len() == before.witness.len() + 1);
                    cs.lemma_bounded();
                    assert forall|i: int| 0 <= i < after.constraints.len() && before.satisfied() implies after.holds(
                        #[trigger] after.constraints[i],
                    ) by {
                        if i < before.constraints.len() {
                            assert(after.constraints[i] == before.constraints[i]);
                            lemma_holds_is_stable(before, after, before.constraints[i]);
                        }
                    }
                }
                Ok(Boolean::Var(out))
            },
        }
    }

    /// Enforces that `self` and `other` hold the same bit.
    ///
    /// Two constants are compared on the spot: the call fails with
    /// `Unsatisfiable` if they differ, and `cs` stays as it was. In every
    /// other case one equality constraint is appended to `cs`, unless an
    /// operand is a variable that `cs` does not hold: then the call fails with
    /// `AssignmentMissing` and leaves `cs` as it was.
    pub fn enforce_equal(&self, other: &Self, cs: &mut ConstraintSystem) -> (r: Result<(), SynthesisError>)
        ensures
            r == Boolean::equal_result(*self, *other, old(cs)@),
            final(cs)@ == Boolean::equal_effect(*self, *other, old(cs)@),
            final(cs)@.extends(old(cs)@),
            r is Ok ==> (final(cs)@.satisfied() <==> old(cs)@.satisfied() && self.value_in(old(cs)@)
                == other.value_in(old(cs)@)),
    {
        match (self, other) {
            (Boolean::Constant(x), Boolean::Constant(y)) => if *x == *y {
                Ok(())
            } else {
                Err(SynthesisError::Unsatisfiable)
            },
            _ => {
                if self.value(cs).is_err() || other.value(cs).is_err() {
                    return Err(SynthesisError::AssignmentMissing);
                }
                let ghost before = cs@;
                let c = Constraint::Equality { left: self.operand(), right: other.operand() };
                cs.enforce_constraint(c);
                proof {
                    let after = cs@;
                    if after.satisfied() {
                        assert(after.holds(after.constraints[before.constraints.len() as int]));
                        assert forall|i: int| 0 <= i < before.constraints.len() implies before.holds(
                            #[trigger] before.constraints[i],
                        ) by {
                            assert(after.holds(after.constraints[i]));
                        }
                    }
                    if before.satisfied() && self.value_in(before) == other.value_in(before) {
                        assert forall|i: int| 0 <= i < after.constraints.len() implies after.holds(
                            #[trigger] after.constraints[i],
                        ) by {
                            if i < before.constraints.len() {
                                assert(after.constraints[i] == before.constraints[i]);
                            }
                        }
                    }
                }
                Ok(())
            },
        }
    }
}

/// Round trip: the bit that an allocation yields holds the native bit it
/// was allocated from, in the system that the allocation leaves behind.
pub proof fn lemma_boolean_round_trip(v: bool, mode: AllocationMode, base: ConstraintSystemView)
    requires
        allocation_effect(base, seq![v], mode).bounded(),
    ensures
        Boolean::image(v, mode, base).value_in(allocation_effect(base, seq![v], mode)) == Some(v),
{
}

impl AllocVar<bool> for Boolean {
    open spec fn admits(v: &bool) -> bool {
        true
    }

    open spec fn leaves(v: &bool) -> Seq<bool> {
        seq![*v]
    }

    open spec fn is_image_of(&self, v: &bool, mode: AllocationMode, base: ConstraintSystemView) -> bool {
        *self == Boolean::image(*v, mode, base)
    }

    /// Runs `f` once, whatever the mode. A constant takes the bit as it is.
    /// An input or a witness becomes a new variable of `cs`, assigned the
    /// bit and bound by its booleanity constraint.
    fn new_variable<'a, P: FnOnce() -> Result<&'a bool, SynthesisError>>(
        cs: &mut ConstraintSystem,
        f: P,
        mode: AllocationMode,
    ) -> (r: Result<Self, SynthesisError>)
        ensures
            exists|o: Result<&'a bool, SynthesisError>| #[trigger]
                f.ensures((), o) && match o {
                    Ok(v) => {
                        &&& r == Ok::<Boolean, SynthesisError>(Boolean::image(*v, mode, old(cs)@))
                        &&& final(cs)@ == allocation_effect(old(cs)@, seq![*v], mode)
                    },
                    Err(e) => r == Err::<Self, SynthesisError>(e) && final(cs)@ == old(cs)@,
                },
            r matches Ok(b) ==> b.value_in(final(cs)@) is Some,
            final(cs)@.extends(old(cs)@),
            old(cs)@.satisfied() ==> final(cs)@.satisfied(),
    {
        let o = f();
        match o {
            Ok(v) => {
                let ghost before = cs@;
                let b = match mode {
                    AllocationMode::Constant => Boolean::Constant(*v),
                    AllocationMode::Input => {
                        let x = cs.new_input_variable(*v);
                        cs.enforce_constraint(Constraint::Booleanity(x));
                        Boolean::Var(x)
                    },
                    AllocationMode::Witness => {
                        let x = cs.new_witness_variable(*v);
                        cs.enforce_constraint(Constraint::Booleanity(x));
                        Boolean::Var(x)
                    },
                };
                proof {
                    let after = cs@;
                    cs.lemma_bounded();
                    assert(after =~= allocation_effect(before, seq![*v], mode));
                    assert forall|i: int| 0 <= i < after.constraints.len() && before.satisfied() implies after.holds(
                        #[trigger] after.constraints[i],
                    ) by {
                        if i < before.constraints.len() {
                            assert(after.constraints[i] == before.constraints[i]);
                            lemma_holds_is_stable(before, after, before.constraints[i]);
                        }
                    }
                    assert forall|w: &'a bool| #[trigger] yields(f, Ok(w)) implies {
                        &&& b.is_image_of(w, mode, before)
                        &&& after == allocation_effect(before, Self::leaves(w), mode)
                    } by {
                        assert(f.ensures((), o));
                        assert(o == Ok::<&'a bool, SynthesisError>(w));
                    }
                    assert(b.is_image_of(v, mode, before));
                }
                Ok(b)
            },
            Err(e) => Err(e),
        }
    }
}

} // verus!
