//! Allocation modes and the protocol by which native values become gadgets.
use crate::cs::{Constraint, ConstraintSystem, ConstraintSystemView, Variable};
use ark_relations::gr1cs::SynthesisError;
use vstd::prelude::*;

verus! {

/// How a value enters a constraint system.
///
/// The modes are totally ordered: `Constant < Input < Witness`.
#[derive(Clone, Copy, Debug, PartialEq, Eq, PartialOrd, Ord, Structural)]
pub enum AllocationMode {
    /// The value is fixed into the circuit itself: no variable is created.
    Constant,
    /// The value is a public input of the constraint system.
    Input,
    /// The value is a private witness of the constraint system.
    Witness,
}

impl AllocationMode {
    /// The position of a mode in the order `Constant < Input < Witness`.
    pub open spec fn spec_rank(self) -> nat {
        match self {
            AllocationMode::Constant => 0,
            AllocationMode::Input => 1,
            AllocationMode::Witness => 2,
        }
    }

    /// The larger of two modes in the order `Constant < Input < Witness`.
    pub open spec fn spec_max(self, other: AllocationMode) -> AllocationMode {
        if self.spec_rank() >= other.spec_rank() {
            self
        } else {
            other
        }
    }

    /// The position of a mode in the order `Constant < Input < Witness`.
    pub fn rank(self) -> (r: u8)
        ensures
            r == self.spec_rank(),
    {
        match self {
            AllocationMode::Constant => 0,
            AllocationMode::Input => 1,
            AllocationMode::Witness => 2,
        }
    }

    /// Outputs the maximum according to the relation
    /// `Constant < Input < Witness`.
    ///
    /// On a value, method syntax picks `Ord::max` of the derived order
    /// instead, which returns the same mode; write
    /// `AllocationMode::max(&x, y)` where the contract is needed.
    pub fn max(&self, other: Self) -> (r: Self)
        ensures
            r == self.spec_max(other),
            r.spec_rank() >= self.spec_rank(),
            r.spec_rank() >= other.spec_rank(),
            r == *self || r == other,
    {
        if self.rank() >= other.rank() {
            *self
        } else {
            other
        }
    }
}

/// `max` is idempotent: `max(x, x) = x`.
pub proof fn lemma_max_idempotent(x: AllocationMode)
    ensures
        x.spec_max(x) == x,
{
}

/// `max` is commutative: `max(x, y) = max(y, x)`.
pub proof fn lemma_max_commutative(x: AllocationMode, y: AllocationMode)
    ensures
        x.spec_max(y) == y.spec_max(x),
{
}

/// `max` is associative: `max(max(x, y), z) = max(x, max(y, z))`.
pub proof fn lemma_max_associative(x: AllocationMode, y: AllocationMode, z: AllocationMode)
    ensures
        x.spec_max(y).spec_max(z) == x.spec_max(y.spec_max(z)),
{
}

/// `Constant` is the identity of `max`: `max(Constant, x) = x`.
pub proof fn lemma_max_constant_is_identity(x: AllocationMode)
    ensures
        AllocationMode::Constant.spec_max(x) == x,
        x.spec_max(AllocationMode::Constant) == x,
{
}

/// `Witness` absorbs: `max(Witness, x) = Witness`.
pub proof fn lemma_max_witness_absorbs(x: AllocationMode)
    ensures
        AllocationMode::Witness.spec_max(x) == AllocationMode::Witness,
        x.spec_max(AllocationMode::Witness) == AllocationMode::Witness,
{
}

/// `max` is the maximum of the order: the result is `Constant` only if both
/// modes are, and `Witness` if one of them is.
pub proof fn lemma_max_is_least_upper_bound(x: AllocationMode, y: AllocationMode)
    ensures
        x.spec_max(y) == AllocationMode::Constant <==> x == AllocationMode::Constant && y
            == AllocationMode::Constant,
        x.spec_max(y) == AllocationMode::Witness <==> x == AllocationMode::Witness || y
            == AllocationMode::Witness,
{
}

/// The system reached from `cs` when `bits` are allocated under `mode`, in
/// order: nothing is added for constants; inputs and witnesses get one
/// variable per bit, each bound by its booleanity constraint.
pub open spec fn allocation_effect(
    cs: ConstraintSystemView,
    bits: Seq<bool>,
    mode: AllocationMode,
) -> ConstraintSystemView {
    match mode {
        AllocationMode::Constant => cs,
        AllocationMode::Input => ConstraintSystemView {
            instance: cs.instance + bits,
            witness: cs.witness,
            constraints: cs.constraints + Seq::new(
                bits.len(),
                |i: int| Constraint::Booleanity(Variable::Instance((cs.instance.len() + i) as usize)),
            ),
        },
        AllocationMode::Witness => ConstraintSystemView {
            instance: cs.instance,
            witness: cs.witness + bits,
            constraints: cs.constraints + Seq::new(
                bits.len(),
                |i: int| Constraint::Booleanity(Variable::Witness((cs.witness.len() + i) as usize)),
            ),
        },
    }
}

/// Allocating `first` and then `second` is allocating their concatenation.
pub proof fn lemma_allocation_effect_concat(
    cs: ConstraintSystemView,
    first: Seq<bool>,
    second: Seq<bool>,
    mode: AllocationMode,
)
    ensures
        allocation_effect(allocation_effect(cs, first, mode), second, mode) == allocation_effect(
            cs,
            first + second,
            mode,
        ),
{
    assert(allocation_effect(allocation_effect(cs, first, mode), second, mode) =~= allocation_effect(
        cs,
        first + second,
        mode,
    ));
}

/// Constants are free: an allocation under `Constant` adds no variable and
/// no constraint, whatever is allocated.
pub proof fn lemma_constant_allocation_is_free(cs: ConstraintSystemView, bits: Seq<bool>)
    ensures
        allocation_effect(cs, bits, AllocationMode::Constant) == cs,
{
}

/// Inputs and witnesses cost: an allocation under `Input` or `Witness` adds
/// one variable of that kind and one constraint for each leaf, so a value
/// with a leaf adds a strictly positive number of both.
pub proof fn lemma_variable_allocation_cost(cs: ConstraintSystemView, bits: Seq<bool>, mode: AllocationMode)
    requires
        mode != AllocationMode::Constant,
    ensures
        ({
            let after = allocation_effect(cs, bits, mode);
            &&& after.instance.len() + after.witness.len() == cs.instance.len() + cs.witness.len()
                + bits.len()
            &&& after.constraints.len() == cs.constraints.len() + bits.len()
            &&& mode == AllocationMode::Input ==> after.witness == cs.witness
            &&& mode == AllocationMode::Witness ==> after.instance == cs.instance
            &&& bits.len() > 0 ==> after.instance.len() + after.witness.len() > cs.instance.len()
                + cs.witness.len() && after.constraints.len() > cs.constraints.len()
        }),
{
}

/// An allocation only appends, and it keeps a satisfied system satisfied,
/// as long as the system it reaches can name its variables.
pub proof fn lemma_allocation_extends(cs: ConstraintSystemView, bits: Seq<bool>, mode: AllocationMode)
    requires
        allocation_effect(cs, bits, mode).bounded(),
    ensures
        allocation_effect(cs, bits, mode).extends(cs),
        cs.satisfied() ==> allocation_effect(cs, bits, mode).satisfied(),
{
    let after = allocation_effect(cs, bits, mode);
    if cs.satisfied() {
        assert forall|i: int| 0 <= i < after.constraints.len() implies after.holds(
            #[trigger] after.constraints[i],
        ) by {
            if i < cs.constraints.len() {
                assert(after.constraints[i] == cs.constraints[i]);
                assert(cs.holds(cs.constraints[i]));
            }
        }
    }
}

/// Whether `o` is the only outcome that the value operation `f` can have.
pub open spec fn yields<'a, V: ?Sized, P: FnOnce() -> Result<&'a V, SynthesisError>>(
    f: P,
    o: Result<&'a V, SynthesisError>,
) -> bool {
    forall|x: Result<&'a V, SynthesisError>| f.ensures((), x) ==> x == o
}

/// Specifies how variables of type `Self` are allocated in a constraint
/// system from a native value of type `V`.
pub trait AllocVar<V: ?Sized>: Sized {
    /// Whether a native value has the shape that `Self` is allocated from.
    spec fn admits(v: &V) -> bool;

    /// The scalar leaves of a native value, in allocation order.
    spec fn leaves(v: &V) -> Seq<bool>;

    /// Whether `self` is what the allocation of `v` under `mode` yields in a
    /// system that was `base` before.
    spec fn is_image_of(&self, v: &V, mode: AllocationMode, base: ConstraintSystemView) -> bool;

    /// Allocates a new variable of type `Self` in `cs`, from the value that
    /// `f` produces and under `mode`.
    ///
    /// Where `f` can only produce the value `v`, the allocation succeeds: the
    /// result is the image of `v`, and `cs` has grown by the leaves of `v`. A
    /// result is the image of a value that `f` produced, in a system that
    /// has grown by its leaves, unless the type holds nothing at all: then
    /// the result stands for every value, and `cs` is unchanged. An error is
    /// one that `f` produced, and then `cs` is unchanged.
    fn new_variable<'a, P: FnOnce() -> Result<&'a V, SynthesisError>>(
        cs: &mut ConstraintSystem,
        f: P,
        mode: AllocationMode,
    ) -> (r: Result<Self, SynthesisError>) where V: 'a
        requires
            f.requires(()),
            forall|v: &'a V| f.ensures((), Ok(v)) ==> Self::admits(v),
        ensures
            forall|v: &'a V| #[trigger] yields(f, Ok(v)) ==> {
                &&& r is Ok
                &&& r.unwrap().is_image_of(v, mode, old(cs)@)
                &&& final(cs)@ == allocation_effect(old(cs)@, Self::leaves(v), mode)
            },
            r matches Ok(g) ==> {
                ||| exists|v: &'a V|
                    {
                        &&& f.ensures((), Ok(v))
                        &&& #[trigger] g.is_image_of(v, mode, old(cs)@)
                        &&& final(cs)@ == allocation_effect(old(cs)@, Self::leaves(v), mode)
                    }
                ||| final(cs)@ == old(cs)@ && forall|v: &'a V| #[trigger] g.is_image_of(v, mode, old(cs)@)
            },
            r matches Err(e) ==> f.ensures((), Err(e)) && final(cs)@ == old(cs)@,
    ;

    /// Allocates a new constant of type `Self`. This adds no variable and no
    /// constraint to `cs`, and cannot fail.
    fn new_constant(cs: &mut ConstraintSystem, t: &V) -> (r: Result<Self, SynthesisError>)
        requires
            Self::admits(t),
        ensures
            r is Ok,
            r.unwrap().is_image_of(t, AllocationMode::Constant, old(cs)@),
            final(cs)@ == old(cs)@,
    {
        let f = || -> (o: Result<&V, SynthesisError>)
            ensures
                o == Ok::<&V, SynthesisError>(t),
            { Ok(t) };
        let r = Self::new_variable(cs, f, AllocationMode::Constant);
        assert(yields(f, Ok::<&V, SynthesisError>(t)));
        r
    }

    /// Allocates a new public input of type `Self` in `cs`.
    fn new_input<'a, P: FnOnce() -> Result<&'a V, SynthesisError>>(
        cs: &mut ConstraintSystem,
        f: P,
    ) -> (r: Result<Self, SynthesisError>) where V: 'a
        requires
            f.requires(()),
            forall|v: &'a V| f.ensures((), Ok(v)) ==> Self::admits(v),
        ensures
            forall|v: &'a V| #[trigger] yields(f, Ok(v)) ==> {
                &&& r is Ok
                &&& r.unwrap().is_image_of(v, AllocationMode::Input, old(cs)@)
                &&& final(cs)@ == allocation_effect(old(cs)@, Self::leaves(v), AllocationMode::Input)
            },
            r matches Ok(g) ==> {
                ||| exists|v: &'a V|
                    {
                        &&& f.ensures((), Ok(v))
                        &&& #[trigger] g.is_image_of(v, AllocationMode::Input, old(cs)@)
                        &&& final(cs)@ == allocation_effect(old(cs)@, Self::leaves(v), AllocationMode::Input)
                    }
                ||| final(cs)@ == old(cs)@ && forall|v: &'a V| #[trigger] g.is_image_of(v, AllocationMode::Input, old(cs)@)
            },
            r matches Err(e) ==> f.ensures((), Err(e)) && final(cs)@ == old(cs)@,
    {
        Self::new_variable(cs, f, AllocationMode::Input)
    }

    /// Allocates a new private witness of type `Self` in `cs`.
    fn new_witness<'a, P: FnOnce() -> Result<&'a V, SynthesisError>>(
        cs: &mut ConstraintSystem,
        f: P,
    ) -> (r: Result<Self, SynthesisError>) where V: 'a
        requires
            f.requires(()),
            forall|v: &'a V| f.ensures((), Ok(v)) ==> Self::admits(v),
        ensures
            forall|v: &'a V| #[trigger] yields(f, Ok(v)) ==> {
                &&& r is Ok
                &&& r.unwrap().is_image_of(v, AllocationMode::Witness, old(cs)@)
                &&& final(cs)@ == allocation_effect(old(cs)@, Self::leaves(v), AllocationMode::Witness)
            },
            r matches Ok(g) ==> {
                ||| exists|v: &'a V|
                    {
                        &&& f.ensures((), Ok(v))
                        &&& #[trigger] g.is_image_of(v, AllocationMode::Witness, old(cs)@)
                        &&& final(cs)@ == allocation_effect(old(cs)@, Self::leaves(v), AllocationMode::Witness)
                    }
                ||| final(cs)@ == old(cs)@ && forall|v: &'a V| #[trigger] g.is_image_of(v, AllocationMode::Witness, old(cs)@)
            },
            r matches Err(e) ==> f.ensures((), Err(e)) && final(cs)@ == old(cs)@,
    {
        Self::new_variable(cs, f, AllocationMode::Witness)
    }
}

/// The leaves of the first `n` elements of a native sequence, in order.
pub open spec fn leaves_of_prefix<I, A: AllocVar<I>>(v: Seq<I>, n: nat) -> Seq<bool>
    decreases n,
{
    if n == 0 {
        Seq::empty()
    } else {
        leaves_of_prefix::<I, A>(v, (n - 1) as nat) + A::leaves(&v[n - 1])
    }
}

/// A sequence costs what its elements cost: where one element has a leaf,
/// the allocation of the sequence under `Input` or `Witness` adds a strictly
/// positive number of variables and of constraints.
pub proof fn lemma_sequence_allocation_cost<I, A: AllocVar<I>>(
    cs: ConstraintSystemView,
    v: Seq<I>,
    mode: AllocationMode,
    i: int,
)
    requires
        mode != AllocationMode::Constant,
        0 <= i < v.len(),
        A::leaves(&v[i]).len() > 0,
    ensures
        ({
            let after = allocation_effect(cs, leaves_of_prefix::<I, A>(v, v.len()), mode);
            &&& after.instance.len() + after.witness.len() > cs.instance.len() + cs.witness.len()
            &&& after.constraints.len() > cs.constraints.len()
        }),
{
    lemma_leaves_of_prefix_len::<I, A>(v, v.len(), i);
}

proof fn lemma_leaves_of_prefix_len<I, A: AllocVar<I>>(v: Seq<I>, n: nat, i: int)
    requires
        0 <= i < n,
    ensures
        leaves_of_prefix::<I, A>(v, n).len() >= A::leaves(&v[i]).len(),
    decreases n,
{
    if i < n - 1 {
        lemma_leaves_of_prefix_len::<I, A>(v, (n - 1) as nat, i);
    }
}

/// Whether the gadgets `g` are the images of the native elements `v`, each
/// allocated in the system that the elements before it left behind.
pub open spec fn is_image_of_each<I, A: AllocVar<I>>(
    g: Seq<A>,
    v: Seq<I>,
    mode: AllocationMode,
    base: ConstraintSystemView,
) -> bool {
    &&& g.len() == v.len()
    &&& forall|i: int|
        0 <= i < g.len() ==> (#[trigger] g[i]).is_image_of(
            &v[i],
            mode,
            allocation_effect(base, leaves_of_prefix::<I, A>(v, i as nat), mode),
        )
}

/// Allocates one gadget per element of `v`, in index order, all under `mode`
/// and in the same system.
fn allocate_each<I, A: AllocVar<I>>(cs: &mut ConstraintSystem, v: &[I], mode: AllocationMode) -> (g: Vec<A>)
    requires
        forall|i: int| 0 <= i < v@.len() ==> A::admits(&#[trigger] v@[i]),
    ensures
        is_image_of_each::<I, A>(g@, v@, mode, old(cs)@),
        final(cs)@ == allocation_effect(old(cs)@, leaves_of_prefix::<I, A>(v@, v@.len()), mode),
{
    let ghost base = cs@;
    let mut g: Vec<A> = Vec::new();
    let mut i: usize = 0;
    assert(allocation_effect(base, Seq::empty(), mode) =~= base);
    while i < v.len()
        invariant
            i <= v@.len(),
            g@.len() == i,
            forall|j: int| 0 <= j < v@.len() ==> A::admits(&#[trigger] v@[j]),
            cs@ == allocation_effect(base, leaves_of_prefix::<I, A>(v@, i as nat), mode),
            forall|j: int|
                0 <= j < i ==> (#[trigger] g@[j]).is_image_of(
                    &v@[j],
                    mode,
                    allocation_effect(base, leaves_of_prefix::<I, A>(v@, j as nat), mode),
                ),
        decreases v@.len() - i,
    {
        let e = &v[i];
        let f = || -> (o: Result<&I, SynthesisError>)
            ensures
                o == Ok::<&I, SynthesisError>(e),
            { Ok(e) };
        let r = A::new_variable(cs, f, mode);
        proof {
            assert(yields(f, Ok::<&I, SynthesisError>(e)));
            lemma_allocation_effect_concat(
                base,
                leaves_of_prefix::<I, A>(v@, i as nat),
                A::leaves(e),
                mode,
            );
        }
        g.push(r.unwrap());
        i += 1;
    }
    g
}

impl<I, A: AllocVar<I>> AllocVar<[I]> for Vec<A> {
    open spec fn admits(v: &[I]) -> bool {
        forall|i: int| 0 <= i < v@.len() ==> A::admits(&#[trigger] v@[i])
    }

    open spec fn leaves(v: &[I]) -> Seq<bool> {
        leaves_of_prefix::<I, A>(v@, v@.len())
    }

    open spec fn is_image_of(&self, v: &[I], mode: AllocationMode, base: ConstraintSystemView) -> bool {
        is_image_of_each::<I, A>(self@, v@, mode, base)
    }

    /// Allocates the elements one by one, in index order, each under `mode`
    /// and in `cs`. The result has the length and the order of the input.
    fn new_variable<'a, P: FnOnce() -> Result<&'a [I], SynthesisError>>(
        cs: &mut ConstraintSystem,
        f: P,
        mode: AllocationMode,
    ) -> (r: Result<Self, SynthesisError>) where I: 'a
        ensures
            exists|o: Result<&'a [I], SynthesisError>| #[trigger]
                f.ensures((), o) && match o {
                    Ok(v) => {
                        &&& r is Ok
                        &&& is_image_of_each::<I, A>(r.unwrap()@, v@, mode, old(cs)@)
                        &&& final(cs)@ == allocation_effect(
                            old(cs)@,
                            leaves_of_prefix::<I, A>(v@, v@.len()),
                            mode,
                        )
                    },
                    Err(e) => r == Err::<Self, SynthesisError>(e) && final(cs)@ == old(cs)@,
                },
    {
        let o = f();
        match o {
            Ok(v) => {
                assert(Self::admits(v));
                let ghost before = cs@;
                let g = allocate_each(cs, v, mode);
                assert forall|w: &'a [I]| #[trigger] yields(f, Ok(w)) implies {
                    &&& g.is_image_of(w, mode, before)
                    &&& cs@ == allocation_effect(before, Self::leaves(w), mode)
                } by {
                    assert(f.ensures((), o));
                    assert(o == Ok::<&'a [I], SynthesisError>(w));
                }
                assert(g.is_image_of(v, mode, before));
                Ok(g)
            },
            Err(e) => Err(e),
        }
    }
}

/// Turns a vector into an array of the same elements, through the standard
/// library's `TryFrom<Vec<T>> for [T; N]`: the conversion succeeds exactly on
/// the vectors of length `N`, and keeps the elements and their order.
#[verifier::external_body]
fn vec_into_array<T, const N: usize>(v: Vec<T>) -> (r: Option<[T; N]>)
    ensures
        r is Some <==> v@.len() == N,
        r matches Some(a) ==> a@ == v@,
{
    <[T; N]>::try_from(v).ok()
}

impl<I, A: AllocVar<I>, const N: usize> AllocVar<[I; N]> for [A; N] {
    open spec fn admits(v: &[I; N]) -> bool {
        forall|i: int| 0 <= i < v@.len() ==> A::admits(&#[trigger] v@[i])
    }

    open spec fn leaves(v: &[I; N]) -> Seq<bool> {
        leaves_of_prefix::<I, A>(v@, v@.len())
    }

    open spec fn is_image_of(&self, v: &[I; N], mode: AllocationMode, base: ConstraintSystemView) -> bool {
        is_image_of_each::<I, A>(self@, v@, mode, base)
    }

    /// Allocates the `N` elements one by one, in index order, each under
    /// `mode` and in `cs`.
    fn new_variable<'a, P: FnOnce() -> Result<&'a [I; N], SynthesisError>>(
        cs: &mut ConstraintSystem,
        f: P,
        mode: AllocationMode,
    ) -> (r: Result<Self, SynthesisError>) where I: 'a
        ensures
            exists|o: Result<&'a [I; N], SynthesisError>| #[trigger]
                f.ensures((), o) && match o {
                    Ok(v) => {
                        &&& r is Ok
                        &&& is_image_of_each::<I, A>(r.unwrap()@, v@, mode, old(cs)@)
                        &&& final(cs)@ == allocation_effect(
                            old(cs)@,
                            leaves_of_prefix::<I, A>(v@, v@.len()),
                            mode,
                        )
                    },
                    Err(e) => r == Err::<Self, SynthesisError>(e) && final(cs)@ == old(cs)@,
                },
    {
        let o = f();
        match o {
            Ok(v) => {
                assert(Self::admits(v));
                let ghost before = cs@;
                let g = vec_into_array::<A, N>(allocate_each(cs, v.as_slice(), mode)).unwrap();
                assert forall|w: &'a [I; N]| #[trigger] yields(f, Ok(w)) implies {
                    &&& g.is_image_of(w, mode, before)
                    &&& cs@ == allocation_effect(before, Self::leaves(w), mode)
                } by {
                    assert(f.ensures((), o));
                    assert(o == Ok::<&'a [I; N], SynthesisError>(w));
                }
                assert(g.is_image_of(v, mode, before));
                Ok(g)
            },
            Err(e) => Err(e),
        }
    }
}

impl<I, A: AllocVar<I>, const N: usize> AllocVar<[I]> for [A; N] {
    /// The native sequence has to hold exactly `N` elements.
    open spec fn admits(v: &[I]) -> bool {
        &&& v@.len() == N
        &&& forall|i: int| 0 <= i < v@.len() ==> A::admits(&#[trigger] v@[i])
    }

    open spec fn leaves(v: &[I]) -> Seq<bool> {
        leaves_of_prefix::<I, A>(v@, v@.len())
    }

    open spec fn is_image_of(&self, v: &[I], mode: AllocationMode, base: ConstraintSystemView) -> bool {
        is_image_of_each::<I, A>(self@, v@, mode, base)
    }

    /// Allocates the `N` elements one by one, in index order, each under
    /// `mode` and in `cs`.
    fn new_variable<'a, P: FnOnce() -> Result<&'a [I], SynthesisError>>(
        cs: &mut ConstraintSystem,
        f: P,
        mode: AllocationMode,
    ) -> (r: Result<Self, SynthesisError>) where I: 'a
        ensures
            exists|o: Result<&'a [I], SynthesisError>| #[trigger]
                f.ensures((), o) && match o {
                    Ok(v) => {
                        &&& r is Ok
                        &&& is_image_of_each::<I, A>(r.unwrap()@, v@, mode, old(cs)@)
                        &&& final(cs)@ == allocation_effect(
                            old(cs)@,
                            leaves_of_prefix::<I, A>(v@, v@.len()),
                            mode,
                        )
                    },
                    Err(e) => r == Err::<Self, SynthesisError>(e) && final(cs)@ == old(cs)@,
                },
    {
        let o = f();
        match o {
            Ok(v) => {
                assert(Self::admits(v));
                let ghost before = cs@;
                let g = vec_into_array::<A, N>(allocate_each(cs, v, mode)).unwrap();
                assert forall|w: &'a [I]| #[trigger] yields(f, Ok(w)) implies {
                    &&& g.is_image_of(w, mode, before)
                    &&& cs@ == allocation_effect(before, Self::leaves(w), mode)
                } by {
                    assert(f.ensures((), o));
                    assert(o == Ok::<&'a [I], SynthesisError>(w));
                }
                assert(g.is_image_of(v, mode, before));
                Ok(g)
            },
            Err(e) => Err(e),
        }
    }
}

impl AllocVar<()> for () {
    open spec fn admits(v: &()) -> bool {
        true
    }

    open spec fn leaves(v: &()) -> Seq<bool> {
        Seq::empty()
    }

    open spec fn is_image_of(&self, v: &(), mode: AllocationMode, base: ConstraintSystemView) -> bool {
        true
    }

    /// Succeeds without running `f` and without touching `cs`.
    fn new_variable<'a, P: FnOnce() -> Result<&'a (), SynthesisError>>(
        cs: &mut ConstraintSystem,
        f: P,
        mode: AllocationMode,
    ) -> (r: Result<Self, SynthesisError>)
        ensures
            r == Ok::<(), SynthesisError>(()),
            final(cs)@ == old(cs)@,
    {
        assert forall|v: &'a ()| true implies cs@ == allocation_effect(
            cs@,
            #[trigger] <() as AllocVar<()>>::leaves(v),
            mode,
        ) by {
            assert(allocation_effect(cs@, Seq::<bool>::empty(), mode) =~= cs@);
        }
        Ok(())
    }
}

} // verus!
