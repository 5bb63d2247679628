//! The constraint system that gadgets write to.
//!
//! A [`ConstraintSystem`] is an append-only record: variables, each with the
//! bit that the honest assignment gives it, and the constraints that bind
//! them. Nothing that was appended is ever renumbered or removed.
//!
//! Every variable holds a bit, and every constraint is a rank-one
//! constraint `a * b = c` over the values 0 and 1. On such values the
//! constraints mean the same in every field, so the record is independent of
//! the field that a proof system later works over.
use vstd::prelude::*;

verus! {

/// A variable of a constraint system, named by the order of its allocation.
#[derive(Clone, Copy, Debug, PartialEq, Eq, Hash, Structural)]
pub enum Variable {
    /// The public input allocated at this position.
    Instance(usize),
    /// The private witness allocated at this position.
    Witness(usize),
}

/// One side of a constraint: a bit fixed into the circuit, or a variable.
#[derive(Clone, Copy, Debug, PartialEq, Eq, Hash, Structural)]
pub enum Operand {
    /// A bit that is part of the circuit's description.
    Constant(bool),
    /// The value of a variable.
    Variable(Variable),
}

/// A rank-one constraint, in one of the shapes that bit-level gadgets write.
#[derive(Clone, Copy, Debug, PartialEq, Eq, Hash, Structural)]
pub enum Constraint {
    /// `(1 - v) * v = 0`: the variable holds a bit.
    Booleanity(Variable),
    /// `left * right = out`: the output is the conjunction of both sides.
    Product { left: Operand, right: Operand, out: Variable },
    /// `(left - right) * 1 = 0`: both sides hold the same bit.
    Equality { left: Operand, right: Operand },
}

/// What a term of a linear combination multiplies its sign with.
#[derive(Clone, Copy, Debug, PartialEq, Eq, Hash, Structural)]
pub enum Factor {
    /// The constant one.
    One,
    /// The value of a variable.
    Variable(Variable),
}

/// A term of a linear combination: a factor, added or subtracted.
#[derive(Clone, Copy, Debug, PartialEq, Eq, Hash, Structural)]
pub struct Term {
    /// Whether the factor is subtracted.
    pub negative: bool,
    /// What is added or subtracted.
    pub factor: Factor,
}

impl Operand {
    /// The operand as a linear combination, added or subtracted: one term,
    /// or no term for the constant zero.
    pub open spec fn spec_terms(self, negative: bool) -> Seq<Term> {
        match self {
            Operand::Constant(b) => if b {
                seq![Term { negative, factor: Factor::One }]
            } else {
                Seq::empty()
            },
            Operand::Variable(v) => seq![Term { negative, factor: Factor::Variable(v) }],
        }
    }

    /// The operand as a linear combination, added or subtracted: one term,
    /// or no term for the constant zero.
    pub fn terms(&self, negative: bool) -> (r: Vec<Term>)
        ensures
            r@ == self.spec_terms(negative),
    {
        let mut r: Vec<Term> = Vec::new();
        match self {
            Operand::Constant(b) => {
                if *b {
                    r.push(Term { negative, factor: Factor::One });
                }
            },
            Operand::Variable(v) => {
                r.push(Term { negative, factor: Factor::Variable(*v) });
            },
        }
        r
    }
}

/// The three sides of a rank-one constraint `a * b = c`, each a linear
/// combination.
#[derive(Clone, Debug, PartialEq, Eq)]
pub struct Rows {
    /// The left factor.
    pub a: Vec<Term>,
    /// The right factor.
    pub b: Vec<Term>,
    /// The product.
    pub c: Vec<Term>,
}

impl Constraint {
    /// The three sides `(a, b, c)` of the constraint as a rank-one
    /// constraint `a * b = c`.
    pub open spec fn spec_rows(self) -> (Seq<Term>, Seq<Term>, Seq<Term>) {
        match self {
            Constraint::Booleanity(v) => (
                seq![
                    Term { negative: false, factor: Factor::One },
                    Term { negative: true, factor: Factor::Variable(v) },
                ],
                seq![Term { negative: false, factor: Factor::Variable(v) }],
                Seq::empty(),
            ),
            Constraint::Product { left, right, out } => (
                left.spec_terms(false),
                right.spec_terms(false),
                seq![Term { negative: false, factor: Factor::Variable(out) }],
            ),
            Constraint::Equality { left, right } => (
                left.spec_terms(false) + right.spec_terms(true),
                seq![Term { negative: false, factor: Factor::One }],
                Seq::empty(),
            ),
        }
    }

    /// The three sides of the constraint as a rank-one constraint
    /// `a * b = c`.
    pub fn rows(&self) -> (r: Rows)
        ensures
            (r.a@, r.b@, r.c@) == self.spec_rows(),
    {
        match self {
            Constraint::Booleanity(v) => {
                let mut a: Vec<Term> = Vec::new();
                a.push(Term { negative: false, factor: Factor::One });
                a.push(Term { negative: true, factor: Factor::Variable(*v) });
                let mut b: Vec<Term> = Vec::new();
                b.push(Term { negative: false, factor: Factor::Variable(*v) });
                proof {
                    assert(a@ =~= self.spec_rows().0);
                    assert(b@ =~= self.spec_rows().1);
                }
                Rows { a, b, c: Vec::new() }
            },
            Constraint::Product { left, right, out } => {
                let mut c: Vec<Term> = Vec::new();
                c.push(Term { negative: false, factor: Factor::Variable(*out) });
                proof {
                    assert(c@ =~= self.spec_rows().2);
                }
                Rows { a: left.terms(false), b: right.terms(false), c }
            },
            Constraint::Equality { left, right } => {
                let mut a = left.terms(false);
                let mut subtracted = right.terms(true);
                a.append(&mut subtracted);
                let mut b: Vec<Term> = Vec::new();
                b.push(Term { negative: false, factor: Factor::One });
                proof {
                    assert(b@ =~= self.spec_rows().1);
                }
                Rows { a, b, c: Vec::new() }
            },
        }
    }
}

/// The number that stands for a bit: 1 for true, 0 for false.
pub open spec fn bit_number(b: bool) -> int {
    if b {
        1
    } else {
        0
    }
}

/// The contents of a constraint system, as mathematical sequences.
#[verifier::ext_equal]
pub struct ConstraintSystemView {
    /// The bit assigned to each public input, in allocation order.
    pub instance: Seq<bool>,
    /// The bit assigned to each private witness, in allocation order.
    pub witness: Seq<bool>,
    /// The constraints, in the order in which they were enforced.
    pub constraints: Seq<Constraint>,
}

impl ConstraintSystemView {
    /// The system without variables and constraints.
    pub open spec fn empty() -> ConstraintSystemView {
        ConstraintSystemView { instance: Seq::empty(), witness: Seq::empty(), constraints: Seq::empty() }
    }

    /// The bit assigned to a variable, if the system holds that variable.
    pub open spec fn value_of(self, v: Variable) -> Option<bool> {
        match v {
            Variable::Instance(i) => if i < self.instance.len() {
                Some(self.instance[i as int])
            } else {
                None
            },
            Variable::Witness(i) => if i < self.witness.len() {
                Some(self.witness[i as int])
            } else {
                None
            },
        }
    }

    /// The bit that one side of a constraint evaluates to, if it is known.
    pub open spec fn operand_value(self, o: Operand) -> Option<bool> {
        match o {
            Operand::Constant(b) => Some(b),
            Operand::Variable(v) => self.value_of(v),
        }
    }

    /// Whether the assignment satisfies a constraint. A constraint over a
    /// variable that the system does not hold is not satisfied.
    pub open spec fn holds(self, c: Constraint) -> bool {
        match c {
            Constraint::Booleanity(v) => self.value_of(v) is Some,
            Constraint::Product { left, right, out } => {
                &&& self.operand_value(left) is Some
                &&& self.operand_value(right) is Some
                &&& self.value_of(out) == Some(
                    self.operand_value(left).unwrap() && self.operand_value(right).unwrap(),
                )
            },
            Constraint::Equality { left, right } => {
                &&& self.operand_value(left) is Some
                &&& self.operand_value(left) == self.operand_value(right)
            },
        }
    }

    /// The number that a term evaluates to under the assignment, each bit
    /// taken as the number 0 or 1, if the system holds the term's variable.
    pub open spec fn term_number(self, t: Term) -> Option<int> {
        let factor = match t.factor {
            Factor::One => Some(1int),
            Factor::Variable(v) => match self.value_of(v) {
                Some(x) => Some(bit_number(x)),
                None => None,
            },
        };
        match factor {
            Some(x) => Some(
                if t.negative {
                    -x
                } else {
                    x
                },
            ),
            None => None,
        }
    }

    /// The number that a linear combination evaluates to under the
    /// assignment: the sum of its terms, if the system holds their variables.
    pub open spec fn combination_number(self, terms: Seq<Term>) -> Option<int>
        decreases terms.len(),
    {
        if terms.len() == 0 {
            Some(0)
        } else {
            match (self.combination_number(terms.drop_last()), self.term_number(terms.last())) {
                (Some(x), Some(y)) => Some(x + y),
                _ => None,
            }
        }
    }

    /// The three sides `(a, b, c)` of a constraint `a * b = c` as numbers
    /// under the assignment, if the system holds the variables of the
    /// constraint.
    pub open spec fn sides(self, c: Constraint) -> Option<(int, int, int)> {
        let rows = c.spec_rows();
        match (
            self.combination_number(rows.0),
            self.combination_number(rows.1),
            self.combination_number(rows.2),
        ) {
            (Some(x), Some(y), Some(z)) => Some((x, y, z)),
            _ => None,
        }
    }

    /// Whether the assignment satisfies every constraint of the system.
    pub open spec fn satisfied(self) -> bool {
        forall|i: int| 0 <= i < self.constraints.len() ==> self.holds(#[trigger] self.constraints[i])
    }

    /// Whether every variable of the system can be named: the counts of
    /// inputs and of witnesses fit the machine's index type.
    pub open spec fn bounded(self) -> bool {
        &&& self.instance.len() <= usize::MAX
        &&& self.witness.len() <= usize::MAX
        &&& self.constraints.len() <= usize::MAX
    }

    /// Whether `self` was reached from `earlier` by appending alone: every
    /// variable and constraint of `earlier` stands in `self` at its old place.
    pub open spec fn extends(self, earlier: ConstraintSystemView) -> bool {
        &&& earlier.instance.is_prefix_of(self.instance)
        &&& earlier.witness.is_prefix_of(self.witness)
        &&& earlier.constraints.is_prefix_of(self.constraints)
    }

    /// The system after the allocation of one more public input.
    pub open spec fn with_input(self, value: bool) -> ConstraintSystemView {
        ConstraintSystemView { instance: self.instance.push(value), ..self }
    }

    /// The system after the allocation of one more private witness.
    pub open spec fn with_witness(self, value: bool) -> ConstraintSystemView {
        ConstraintSystemView { witness: self.witness.push(value), ..self }
    }

    /// The system after one more constraint was enforced.
    pub open spec fn with_constraint(self, c: Constraint) -> ConstraintSystemView {
        ConstraintSystemView { constraints: self.constraints.push(c), ..self }
    }
}

/// A constraint holds exactly if its sides are known and satisfy the
/// rank-one equation `a * b = c`. The sides are among -1, 0 and 1, which
/// differ from each other as they do in every field.
pub proof fn lemma_holds_is_rank_one(cs: ConstraintSystemView, c: Constraint)
    ensures
        cs.holds(c) <==> cs.sides(c) is Some && cs.sides(c).unwrap().0 * cs.sides(c).unwrap().1
            == cs.sides(c).unwrap().2,
        cs.sides(c) matches Some(s) ==> -1 <= s.0 <= 1 && 0 <= s.1 <= 1 && 0 <= s.2 <= 1,
{
    let rows = c.spec_rows();
    lemma_short_combination(cs, rows.0);
    lemma_short_combination(cs, rows.1);
    lemma_short_combination(cs, rows.2);
}

/// A linear combination of at most two terms evaluates to nothing, to its
/// term, or to the sum of its two terms.
proof fn lemma_short_combination(cs: ConstraintSystemView, terms: Seq<Term>)
    requires
        terms.len() <= 2,
    ensures
        terms.len() == 0 ==> cs.combination_number(terms) == Some(0int),
        terms.len() == 1 ==> cs.combination_number(terms) == cs.term_number(terms[0]),
        terms.len() == 2 ==> cs.combination_number(terms) == match (
            cs.term_number(terms[0]),
            cs.term_number(terms[1]),
        ) {
            (Some(x), Some(y)) => Some(x + y),
            _ => None,
        },
    decreases terms.len(),
{
    if terms.len() > 0 {
        lemma_short_combination(cs, terms.drop_last());
    }
}

/// A constraint that holds in a system holds in every system that extends
/// it: appending changes no value that was known.
pub proof fn lemma_holds_is_stable(
    earlier: ConstraintSystemView,
    later: ConstraintSystemView,
    c: Constraint,
)
    requires
        later.extends(earlier),
        earlier.holds(c),
    ensures
        later.holds(c),
{
}

/// An append-only record of variables, their honest assignment, and
/// constraints.
#[derive(Debug)]
pub struct ConstraintSystem {
    instance: Vec<bool>,
    witness: Vec<bool>,
    constraints: Vec<Constraint>,
}

impl View for ConstraintSystem {
    type V = ConstraintSystemView;

    closed spec fn view(&self) -> ConstraintSystemView {
        ConstraintSystemView {
            instance: self.instance@,
            witness: self.witness@,
            constraints: self.constraints@,
        }
    }
}

impl ConstraintSystem {
    /// The contents of a system that exists are bounded.
    pub proof fn lemma_bounded(&self)
        ensures
            self@.bounded(),
    {
        assert(self.instance.len() == self.instance@.len());
        assert(self.witness.len() == self.witness@.len());
        assert(self.constraints.len() == self.constraints@.len());
    }

    /// Creates a system without variables and constraints.
    pub fn new() -> (cs: Self)
        ensures
            cs@ == ConstraintSystemView::empty(),
    {
        ConstraintSystem { instance: Vec::new(), witness: Vec::new(), constraints: Vec::new() }
    }

    /// Allocates a public input that the honest assignment sets to `value`.
    pub fn new_input_variable(&mut self, value: bool) -> (v: Variable)
        ensures
            v == Variable::Instance(old(self)@.instance.len() as usize),
            final(self)@ == old(self)@.with_input(value),
    {
        let index = self.instance.len();
        self.instance.push(value);
        Variable::Instance(index)
    }

    /// Allocates a private witness that the honest assignment sets to `value`.
    pub fn new_witness_variable(&mut self, value: bool) -> (v: Variable)
        ensures
            v == Variable::Witness(old(self)@.witness.len() as usize),
            final(self)@ == old(self)@.with_witness(value),
    {
        let index = self.witness.len();
        self.witness.push(value);
        Variable::Witness(index)
    }

    /// Appends a constraint to the system.
    pub fn enforce_constraint(&mut self, c: Constraint)
        ensures
            final(self)@ == old(self)@.with_constraint(c),
    {
        self.constraints.push(c);
    }

    /// The bit assigned to `v`, or `None` if the system holds no such variable.
    pub fn assigned_value(&self, v: Variable) -> (r: Option<bool>)
        ensures
            r == self@.value_of(v),
    {
        match v {
            Variable::Instance(i) => if i < self.instance.len() {
                Some(self.instance[i])
            } else {
                None
            },
            Variable::Witness(i) => if i < self.witness.len() {
                Some(self.witness[i])
            } else {
                None
            },
        }
    }

    /// The number of public inputs allocated so far.
    pub fn num_instance_variables(&self) -> (n: usize)
        ensures
            n == self@.instance.len(),
    {
        self.instance.len()
    }

    /// The number of private witnesses allocated so far.
    pub fn num_witness_variables(&self) -> (n: usize)
        ensures
            n == self@.witness.len(),
    {
        self.witness.len()
    }

    /// The number of constraints enforced so far.
    pub fn num_constraints(&self) -> (n: usize)
        ensures
            n == self@.constraints.len(),
    {
        self.constraints.len()
    }

    /// The bits assigned to the public inputs, in allocation order.
    pub fn instance_assignment(&self) -> (r: &Vec<bool>)
        ensures
            r@ == self@.instance,
    {
        &self.instance
    }

    /// The bits assigned to the private witnesses, in allocation order.
    pub fn witness_assignment(&self) -> (r: &Vec<bool>)
        ensures
            r@ == self@.witness,
    {
        &self.witness
    }

    /// The constraints, in the order in which they were enforced.
    pub fn constraints(&self) -> (r: &Vec<Constraint>)
        ensures
            r@ == self@.constraints,
    {
        &self.constraints
    }

    fn operand_value(&self, o: Operand) -> (r: Option<bool>)
        ensures
            r == self@.operand_value(o),
    {
        match o {
            Operand::Constant(b) => Some(b),
            Operand::Variable(v) => self.assigned_value(v),
        }
    }

    fn holds(&self, c: Constraint) -> (r: bool)
        ensures
            r == self@.holds(c),
    {
        match c {
            Constraint::Booleanity(v) => self.assigned_value(v).is_some(),
            Constraint::Product { left, right, out } => {
                match (self.operand_value(left), self.operand_value(right), self.assigned_value(out)) {
                    (Some(l), Some(r), Some(o)) => o == (l && r),
                    _ => false,
                }
            },
            Constraint::Equality { left, right } => {
                match (self.operand_value(left), self.operand_value(right)) {
                    (Some(l), Some(r)) => l == r,
                    _ => false,
                }
            },
        }
    }

    /// Whether the honest assignment satisfies every constraint.
    pub fn is_satisfied(&self) -> (r: bool)
        ensures
            r == self@.satisfied(),
    {
        let mut i: usize = 0;
        while i < self.constraints.len()
            invariant
                i <= self.constraints@.len(),
                forall|j: int| 0 <= j < i ==> self@.holds(#[trigger] self@.constraints[j]),
            decreases self.constraints@.len() - i,
        {
            if !self.holds(self.constraints[i]) {
                assert(!self@.holds(self@.constraints[i as int]));
                return false;
            }
            i += 1;
        }
        true
    }
}

} // verus!
