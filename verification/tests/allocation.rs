use ark_relations::gr1cs::SynthesisError;
use r1cs_gadgets::allocation::{AllocVar, AllocationMode};
use r1cs_gadgets::boolean::Boolean;
use r1cs_gadgets::cs::{Constraint, ConstraintSystem, Variable};
use r1cs_gadgets::uint::UInt;
use std::cell::Cell;

fn modes() -> [AllocationMode; 3] {
    [AllocationMode::Constant, AllocationMode::Input, AllocationMode::Witness]
}

fn counts(cs: &ConstraintSystem) -> (usize, usize, usize) {
    (cs.num_instance_variables(), cs.num_witness_variables(), cs.num_constraints())
}

#[test]
fn an_integer_round_trips_under_every_mode() {
    for mode in modes() {
        for t in [0u8, 1, 16, 17, 0x5a, 0xff] {
            let mut cs = ConstraintSystem::new();
            let g = UInt::<8, u8>::new_variable(&mut cs, || Ok(&t), mode).unwrap();
            assert_eq!(g.value(), Ok(t));
            for i in 0..8 {
                assert_eq!(g.bits()[i].value(&cs), Ok((t >> i) & 1 == 1));
            }
            assert_eq!(g.is_constant(), mode == AllocationMode::Constant);
            assert!(cs.is_satisfied());
        }
    }
}

#[test]
fn wide_integers_round_trip() {
    for mode in modes() {
        let mut cs = ConstraintSystem::new();
        let a = 0x0123_4567_89ab_cdef_u64;
        let g = UInt::<64, u64>::new_variable(&mut cs, || Ok(&a), mode).unwrap();
        assert_eq!(g.value(), Ok(a));
        let b = 0x0123_4567_89ab_cdef_fedc_ba98_7654_3210_u128;
        let g = UInt::<128, u128>::new_variable(&mut cs, || Ok(&b), mode).unwrap();
        assert_eq!(g.value(), Ok(b));
        assert_eq!(g.bits()[127].value(&cs), Ok(false));
        assert_eq!(g.bits()[120].value(&cs), Ok(true));
        let c = 0xbeef_u16;
        let g = UInt::<16, u16>::new_variable(&mut cs, || Ok(&c), mode).unwrap();
        assert_eq!(g.value(), Ok(c));
        let d = 0xdead_beef_u32;
        let g = UInt::<32, u32>::new_variable(&mut cs, || Ok(&d), mode).unwrap();
        assert_eq!(g.value(), Ok(d));
        assert_eq!(g.bits()[31].value(&cs), Ok(true));
        assert_eq!(g.bits()[4].value(&cs), Ok(false));
    }
}

#[test]
fn the_bits_come_least_significant_first() {
    let mut cs = ConstraintSystem::new();
    let g = UInt::<8, u8>::new_witness(&mut cs, || Ok(&0b0001_0001)).unwrap();
    let expected: Vec<Boolean> = (0..8).map(|i| Boolean::Var(Variable::Witness(i))).collect();
    assert_eq!(g.bits(), &expected);
    assert_eq!(cs.witness_assignment(), &vec![true, false, false, false, true, false, false, false]);
    let rows: Vec<Constraint> = (0..8).map(|i| Constraint::Booleanity(Variable::Witness(i))).collect();
    assert_eq!(cs.constraints(), &rows);

    let g = UInt::<8, u8>::new_input(&mut cs, || Ok(&0b1000_0000)).unwrap();
    let expected: Vec<Boolean> = (0..8).map(|i| Boolean::Var(Variable::Instance(i))).collect();
    assert_eq!(g.bits(), &expected);
    assert_eq!(cs.instance_assignment(), &vec![false, false, false, false, false, false, false, true]);
    assert_eq!(cs.constraints()[8], Constraint::Booleanity(Variable::Instance(0)));

    let g = UInt::<8, u8>::new_constant(&mut cs, &0b0000_0110).unwrap();
    let expected: Vec<Boolean> =
        [false, true, true, false, false, false, false, false].iter().map(|b| Boolean::Constant(*b)).collect();
    assert_eq!(g.bits(), &expected);
    assert_eq!(UInt::<8, u8>::constant(0b0000_0110).bits(), &expected);
}

#[test]
fn a_gadget_may_be_narrower_or_wider_than_its_shadow() {
    let mut cs = ConstraintSystem::new();
    let g = UInt::<4, u8>::new_witness(&mut cs, || Ok(&0xa5)).unwrap();
    assert_eq!(g.bits().len(), 4);
    assert_eq!(g.value(), Ok(0xa5));
    assert_eq!(cs.witness_assignment(), &vec![true, false, true, false]);

    let g = UInt::<10, u8>::new_witness(&mut cs, || Ok(&0xff)).unwrap();
    assert_eq!(g.bits().len(), 10);
    assert_eq!(g.bits()[7].value(&cs), Ok(true));
    assert_eq!(g.bits()[8].value(&cs), Ok(false));
    assert_eq!(g.bits()[9].value(&cs), Ok(false));
}

#[test]
fn constants_are_free_and_variables_cost() {
    let mut cs = ConstraintSystem::new();
    UInt::<8, u8>::new_variable(&mut cs, || Ok(&200), AllocationMode::Constant).unwrap();
    assert_eq!(counts(&cs), (0, 0, 0));
    UInt::<32, u32>::new_constant(&mut cs, &7).unwrap();
    assert_eq!(counts(&cs), (0, 0, 0));
    UInt::<8, u8>::new_variable(&mut cs, || Ok(&200), AllocationMode::Input).unwrap();
    assert_eq!(counts(&cs), (8, 0, 8));
    UInt::<8, u8>::new_variable(&mut cs, || Ok(&200), AllocationMode::Witness).unwrap();
    assert_eq!(counts(&cs), (8, 8, 16));
    UInt::<32, u32>::new_witness(&mut cs, || Ok(&7)).unwrap();
    assert_eq!(counts(&cs), (8, 40, 48));
    assert!(cs.is_satisfied());
}

#[test]
fn a_vector_allocates_its_elements_in_order() {
    let native = [3u8, 0, 255, 16];
    for mode in modes() {
        let mut cs = ConstraintSystem::new();
        let g = Vec::<UInt<8, u8>>::new_variable(&mut cs, || Ok(&native[..]), mode).unwrap();
        assert_eq!(g.len(), 4);
        for (e, t) in g.iter().zip(native) {
            assert_eq!(e.value(), Ok(t));
            assert_eq!(e.is_constant(), mode == AllocationMode::Constant);
        }
        let expected = match mode {
            AllocationMode::Constant => (0, 0, 0),
            AllocationMode::Input => (32, 0, 32),
            AllocationMode::Witness => (0, 32, 32),
        };
        assert_eq!(counts(&cs), expected);
        if mode == AllocationMode::Witness {
            assert_eq!(g[2].bits()[0], Boolean::Var(Variable::Witness(16)));
            assert_eq!(g[3].bits()[7], Boolean::Var(Variable::Witness(31)));
            assert_eq!(&cs.witness_assignment()[0..8], &[true, true, false, false, false, false, false, false]);
            assert_eq!(&cs.witness_assignment()[16..24], &[true; 8]);
        }
        assert!(cs.is_satisfied());
    }
}

#[test]
fn an_empty_vector_allocates_nothing() {
    for mode in modes() {
        let mut cs = ConstraintSystem::new();
        let native: [bool; 0] = [];
        let g = Vec::<Boolean>::new_variable(&mut cs, || Ok(&native[..]), mode).unwrap();
        assert!(g.is_empty());
        assert_eq!(counts(&cs), (0, 0, 0));
    }
}

#[test]
fn an_array_allocates_its_elements_in_order() {
    let native = [true, false, true];
    for mode in modes() {
        let mut cs = ConstraintSystem::new();
        let g = <[Boolean; 3]>::new_variable(&mut cs, || Ok(&native), mode).unwrap();
        for i in 0..3 {
            assert_eq!(g[i].value(&cs), Ok(native[i]));
        }
        let expected = match mode {
            AllocationMode::Constant => [Boolean::Constant(true), Boolean::Constant(false), Boolean::Constant(true)],
            AllocationMode::Input => [
                Boolean::Var(Variable::Instance(0)),
                Boolean::Var(Variable::Instance(1)),
                Boolean::Var(Variable::Instance(2)),
            ],
            AllocationMode::Witness => [
                Boolean::Var(Variable::Witness(0)),
                Boolean::Var(Variable::Witness(1)),
                Boolean::Var(Variable::Witness(2)),
            ],
        };
        assert_eq!(g, expected);
    }
}

#[test]
fn an_array_allocates_from_a_slice_of_its_length() {
    let native = vec![9u16, 8, 7];
    for mode in modes() {
        let mut cs = ConstraintSystem::new();
        let g = <[UInt<16, u16>; 3]>::new_variable(&mut cs, || Ok(native.as_slice()), mode).unwrap();
        assert_eq!(g[0].value(), Ok(9));
        assert_eq!(g[1].value(), Ok(8));
        assert_eq!(g[2].value(), Ok(7));
        let expected = match mode {
            AllocationMode::Constant => (0, 0, 0),
            AllocationMode::Input => (48, 0, 48),
            AllocationMode::Witness => (0, 48, 48),
        };
        assert_eq!(counts(&cs), expected);
    }
}

#[test]
fn composites_nest() {
    let native = [[true, false], [false, false], [true, true]];
    let mut cs = ConstraintSystem::new();
    let g = Vec::<[Boolean; 2]>::new_witness(&mut cs, || Ok(&native[..])).unwrap();
    assert_eq!(g.len(), 3);
    assert_eq!(g[0], [Boolean::Var(Variable::Witness(0)), Boolean::Var(Variable::Witness(1))]);
    assert_eq!(g[2], [Boolean::Var(Variable::Witness(4)), Boolean::Var(Variable::Witness(5))]);
    assert_eq!(cs.witness_assignment(), &vec![true, false, false, false, true, true]);
    assert_eq!(counts(&cs), (0, 6, 6));

    let g = <[[Boolean; 2]; 3]>::new_constant(&mut cs, &native).unwrap();
    assert_eq!(g[1], [Boolean::Constant(false), Boolean::Constant(false)]);
    assert_eq!(counts(&cs), (0, 6, 6));
}

#[test]
fn the_unit_type_allocates_nothing_and_cannot_fail() {
    for mode in modes() {
        let mut cs = ConstraintSystem::new();
        let ran = Cell::new(0);
        let r = <()>::new_variable(
            &mut cs,
            || {
                ran.set(ran.get() + 1);
                Err(SynthesisError::AssignmentMissing)
            },
            mode,
        );
        assert_eq!(r, Ok(()));
        assert_eq!(ran.get(), 0);
        assert_eq!(counts(&cs), (0, 0, 0));
    }
    let mut cs = ConstraintSystem::new();
    assert_eq!(<()>::new_constant(&mut cs, &()), Ok(()));
    let units = [(), (), ()];
    let g = Vec::<()>::new_witness(&mut cs, || Ok(&units[..])).unwrap();
    assert_eq!(g.len(), 3);
    assert_eq!(counts(&cs), (0, 0, 0));
}

#[test]
fn the_value_operation_runs_once_under_every_mode() {
    for mode in modes() {
        let mut cs = ConstraintSystem::new();
        let ran = Cell::new(0);
        let native = 77u8;
        UInt::<8, u8>::new_variable(
            &mut cs,
            || {
                ran.set(ran.get() + 1);
                Ok(&native)
            },
            mode,
        )
        .unwrap();
        assert_eq!(ran.get(), 1);

        let ran = Cell::new(0);
        let natives = [1u8, 2, 3];
        Vec::<UInt<8, u8>>::new_variable(
            &mut cs,
            || {
                ran.set(ran.get() + 1);
                Ok(&natives[..])
            },
            mode,
        )
        .unwrap();
        assert_eq!(ran.get(), 1);

        let ran = Cell::new(0);
        <[UInt<8, u8>; 3]>::new_variable(
            &mut cs,
            || {
                ran.set(ran.get() + 1);
                Ok(&natives)
            },
            mode,
        )
        .unwrap();
        assert_eq!(ran.get(), 1);

        let ran = Cell::new(0);
        Boolean::new_variable(
            &mut cs,
            || {
                ran.set(ran.get() + 1);
                Ok(&true)
            },
            mode,
        )
        .unwrap();
        assert_eq!(ran.get(), 1);
    }
}

#[test]
fn a_failing_value_operation_fails_every_shape() {
    for mode in modes() {
        for error in [SynthesisError::AssignmentMissing, SynthesisError::Unsatisfiable] {
            let mut cs = ConstraintSystem::new();
            UInt::<8, u8>::new_witness(&mut cs, || Ok(&1)).unwrap();
            let before = counts(&cs);

            let r = UInt::<8, u8>::new_variable(&mut cs, || Err(error), mode);
            assert_eq!(r.err(), Some(error));
            let r = Vec::<UInt<8, u8>>::new_variable(&mut cs, || Err(error), mode);
            assert_eq!(r.err(), Some(error));
            let r: Result<[Boolean; 2], SynthesisError> = AllocVar::<[bool; 2]>::new_variable(&mut cs, || Err(error), mode);
            assert_eq!(r.err(), Some(error));
            let r: Result<[Boolean; 2], SynthesisError> = AllocVar::<[bool]>::new_variable(&mut cs, || Err(error), mode);
            assert_eq!(r.err(), Some(error));
            assert_eq!(counts(&cs), before);
        }
    }
    let mut cs = ConstraintSystem::new();
    assert_eq!(
        UInt::<8, u8>::new_input(&mut cs, || Err(SynthesisError::DivisionByZero)).err(),
        Some(SynthesisError::DivisionByZero)
    );
    assert_eq!(
        UInt::<8, u8>::new_witness(&mut cs, || Err(SynthesisError::DivisionByZero)).err(),
        Some(SynthesisError::DivisionByZero)
    );
    assert_eq!(counts(&cs), (0, 0, 0));
}

#[test]
fn allocation_only_appends() {
    let mut cs = ConstraintSystem::new();
    let first = UInt::<8, u8>::new_witness(&mut cs, || Ok(&0xc3)).unwrap();
    let witness = cs.witness_assignment().clone();
    let rows = cs.constraints().clone();
    UInt::<8, u8>::new_input(&mut cs, || Ok(&0x11)).unwrap();
    UInt::<8, u8>::new_witness(&mut cs, || Ok(&0x22)).unwrap();
    assert_eq!(&cs.witness_assignment()[..8], witness.as_slice());
    assert_eq!(&cs.constraints()[..8], rows.as_slice());
    for i in 0..8 {
        assert_eq!(first.bits()[i].value(&cs), Ok((0xc3u8 >> i) & 1 == 1));
    }
}

#[test]
fn a_gadget_from_wires_has_no_native_value() {
    let mut cs = ConstraintSystem::new();
    let wires = Vec::<Boolean>::new_witness(&mut cs, || Ok(&[true, false, true, true][..])).unwrap();
    let g = UInt::<4, u8>::from_bits_le(wires.clone()).unwrap();
    assert_eq!(g.bits(), &wires);
    assert_eq!(g.value(), Err(SynthesisError::AssignmentMissing));
    assert!(!g.is_constant());
    assert!(UInt::<5, u8>::from_bits_le(wires.clone()).is_none());
    assert!(UInt::<3, u8>::from_bits_le(wires).is_none());
    assert!(UInt::<0, u8>::from_bits_le(Vec::new()).is_some());
}

#[test]
fn a_clone_holds_the_same_bits_and_value() {
    let mut cs = ConstraintSystem::new();
    let g = UInt::<8, u8>::new_witness(&mut cs, || Ok(&0x42)).unwrap();
    let h = g.clone();
    assert_eq!(h.bits(), g.bits());
    assert_eq!(h.value(), Ok(0x42));
    assert_eq!(counts(&cs), (0, 8, 8));
}
