//! Variable allocation and bit-level gadgets for rank-one constraint systems.
//!
//! A gadget is an in-circuit value. It is built from a native value under an
//! [`allocation::AllocationMode`], through the protocol
//! [`allocation::AllocVar`], and every operation on it appends the variables
//! and constraints that certify the operation to a [`cs::ConstraintSystem`].
//!
//! The constraint system is an explicit argument of every operation that
//! writes to it: what an operation returns and what it appends are functions
//! of its arguments, and the contracts state both. The system records bits
//! and rank-one constraints over them, which mean the same in every field;
//! [`cs::Constraint::rows`] gives each constraint as the three linear
//! combinations that a proof system takes.
//!
//! - [`allocation`]: the allocation modes with their order, and the
//!   allocation protocol with its impls for sequences, arrays and the unit
//!   type.
//! - [`cs`]: the constraint system.
//! - [`boolean`]: the bit wire and its conjunction.
//! - [`uint`]: the unsigned integer gadget and its bitwise AND.
//! - [`error`]: the error type of circuit synthesis.
pub mod allocation;
pub mod boolean;
pub mod cs;
pub mod error;
pub mod uint;
