use ark_relations::gr1cs::SynthesisError;
use r1cs_gadgets::allocation::{AllocVar, AllocationMode};
use r1cs_gadgets::boolean::Boolean;
use r1cs_gadgets::cs::{Constraint, ConstraintSystem, Operand, Variable};
use r1cs_gadgets::uint::UInt;

fn modes() -> [AllocationMode; 3] {
    [AllocationMode::Constant, AllocationMode::Input, AllocationMode::Witness]
}

fn counts(cs: &ConstraintSystem) -> (usize, usize, usize) {
    (cs.num_instance_variables(), cs.num_witness_variables(), cs.num_constraints())
}

fn bit_values(g: &UInt<8, u8>, cs: &ConstraintSystem) -> u8 {
    let mut value = 0;
    for i in 0..8 {
        if g.bits()[i].value(cs).unwrap() {
            value |= 1 << i;
        }
    }
    value
}

#[test]
fn two_witnesses() {
    let mut cs = ConstraintSystem::new();
    let a = UInt::<8, u8>::new_witness(&mut cs, || Ok(&16)).unwrap();
    let b = UInt::<8, u8>::new_witness(&mut cs, || Ok(&17)).unwrap();
    let c = a._and(&b, &mut cs).unwrap();
    assert_eq!(c.value(), Ok(16));
    assert_eq!(bit_values(&c, &cs), 16);
    assert!(cs.is_satisfied());
    assert_eq!(counts(&cs), (0, 24, 24));

    let expected = UInt::<8, u8>::new_witness(&mut cs, || Ok(&(16 & 17))).unwrap();
    c.enforce_equal(&expected, &mut cs).unwrap();
    assert!(cs.is_satisfied());
}

#[test]
fn a_witness_and_a_native_scalar() {
    let mut cs = ConstraintSystem::new();
    let a = UInt::<8, u8>::new_witness(&mut cs, || Ok(&16)).unwrap();
    assert_eq!(counts(&cs), (0, 8, 8));
    let c = a.bitand_native(17, &mut cs);
    assert_eq!(c.value(), Ok(16));
    assert_eq!(bit_values(&c, &cs), 16);
    assert!(cs.is_satisfied());
    // the scalar is a constant: all that was added is the eight gates
    assert_eq!(counts(&cs), (0, 16, 16));
    for i in 0..8 {
        assert_eq!(
            cs.constraints()[8 + i],
            Constraint::Product {
                left: Operand::Variable(Variable::Witness(i)),
                right: Operand::Constant((17u8 >> i) & 1 == 1),
                out: Variable::Witness(8 + i),
            }
        );
    }
}

#[test]
fn two_constants_fold() {
    for (x, y) in [(16u8, 17u8), (0, 0), (0xff, 0xff), (0xf0, 0x3c), (0xaa, 0x55)] {
        let mut cs = ConstraintSystem::new();
        UInt::<8, u8>::new_witness(&mut cs, || Ok(&1)).unwrap();
        let before = counts(&cs);
        let a = UInt::<8, u8>::constant(x);
        let b = UInt::<8, u8>::new_constant(&mut cs, &y).unwrap();
        let c = a._and(&b, &mut cs).unwrap();
        assert!(c.is_constant());
        assert_eq!(c.value(), Ok(x & y));
        assert_eq!(c.bits(), UInt::<8, u8>::constant(x & y).bits());
        assert_eq!(counts(&cs), before);

        let d = a.bitand_native(y, &mut cs);
        assert_eq!(d.bits(), c.bits());
        assert_eq!(counts(&cs), before);
    }
}

#[test]
fn the_cost_is_fixed_by_the_modes() {
    for mode_a in modes() {
        for mode_b in modes() {
            let mut expected = (0, 0, 0);
            for mode in [mode_a, mode_b] {
                match mode {
                    AllocationMode::Constant => {},
                    AllocationMode::Input => {
                        expected.0 += 8;
                        expected.2 += 8;
                    },
                    AllocationMode::Witness => {
                        expected.1 += 8;
                        expected.2 += 8;
                    },
                }
            }
            if mode_a != AllocationMode::Constant || mode_b != AllocationMode::Constant {
                expected.1 += 8;
                expected.2 += 8;
            }
            for (x, y) in [(0u8, 0u8), (16, 17), (255, 255), (0x0f, 0xf0)] {
                let mut cs = ConstraintSystem::new();
                let a = UInt::<8, u8>::new_variable(&mut cs, || Ok(&x), mode_a).unwrap();
                let b = UInt::<8, u8>::new_variable(&mut cs, || Ok(&y), mode_b).unwrap();
                let c = a._and(&b, &mut cs).unwrap();
                assert_eq!(counts(&cs), expected);
                assert_eq!(c.value(), Ok(x & y));
                assert_eq!(bit_values(&c, &cs), x & y);
                assert!(cs.is_satisfied());
            }
        }
    }
}

#[test]
fn repeated_runs_append_the_same() {
    let run = || {
        let mut cs = ConstraintSystem::new();
        let a = UInt::<16, u16>::new_witness(&mut cs, || Ok(&0xbeef)).unwrap();
        let b = UInt::<16, u16>::new_input(&mut cs, || Ok(&0x1234)).unwrap();
        let c = UInt::<16, u16>::new_constant(&mut cs, &0x00ff).unwrap();
        let d = a._and(&b, &mut cs).unwrap();
        let e = d._and(&c, &mut cs).unwrap();
        (cs.instance_assignment().clone(), cs.witness_assignment().clone(), cs.constraints().clone(), e.bits().clone())
    };
    let first = run();
    assert_eq!(first.0.len(), 16);
    assert_eq!(first.1.len(), 48);
    assert_eq!(first.2.len(), 64);
    for _ in 0..5 {
        assert_eq!(run(), first);
    }
}

#[test]
fn every_form_gives_the_same() {
    for mode_a in modes() {
        for mode_b in modes() {
            let (x, y) = (0b1100_1010u8, 0b1010_0110u8);
            let setup = || {
                let mut cs = ConstraintSystem::new();
                let a = UInt::<8, u8>::new_variable(&mut cs, || Ok(&x), mode_a).unwrap();
                let b = UInt::<8, u8>::new_variable(&mut cs, || Ok(&y), mode_b).unwrap();
                (cs, a, b)
            };

            let (mut cs, a, b) = setup();
            let canonical = a._and(&b, &mut cs).unwrap();
            assert_eq!(canonical.value(), Ok(x & y));
            // the operands are left as they were
            assert_eq!(a.value(), Ok(x));
            assert_eq!(b.value(), Ok(y));

            let (mut cs2, mut a2, b2) = setup();
            assert_eq!(a2._and_in_place(&b2, &mut cs2), Ok(()));
            assert_eq!(a2.bits(), canonical.bits());
            assert_eq!(a2.value(), canonical.value());
            assert_eq!(cs2.constraints(), cs.constraints());
            assert_eq!(cs2.witness_assignment(), cs.witness_assignment());

            let (mut cs3, a3, b3) = setup();
            let c3 = a3.bitand(&b3, &mut cs3);
            assert_eq!(c3.bits(), canonical.bits());
            assert_eq!(c3.value(), canonical.value());
            assert_eq!(cs3.constraints(), cs.constraints());

            let (mut cs4, mut a4, b4) = setup();
            a4.bitand_assign(&b4, &mut cs4);
            assert_eq!(a4.bits(), canonical.bits());
            assert_eq!(a4.value(), canonical.value());
            assert_eq!(cs4.constraints(), cs.constraints());
            assert_eq!(cs4.instance_assignment(), cs.instance_assignment());
        }

        // a native scalar is the constant gadget of that scalar
        let (x, y) = (0b0111_0001u8, 0b1101_0011u8);
        let mut cs = ConstraintSystem::new();
        let a = UInt::<8, u8>::new_variable(&mut cs, || Ok(&x), mode_a).unwrap();
        let canonical = a._and(&UInt::constant(y), &mut cs).unwrap();

        let mut cs2 = ConstraintSystem::new();
        let a2 = UInt::<8, u8>::new_variable(&mut cs2, || Ok(&x), mode_a).unwrap();
        let c2 = a2.bitand_native(y, &mut cs2);
        assert_eq!(c2.bits(), canonical.bits());
        assert_eq!(c2.value(), Ok(x & y));
        assert_eq!(cs2.constraints(), cs.constraints());

        let mut cs3 = ConstraintSystem::new();
        let mut a3 = UInt::<8, u8>::new_variable(&mut cs3, || Ok(&x), mode_a).unwrap();
        a3.bitand_assign_native(y, &mut cs3);
        assert_eq!(a3.bits(), canonical.bits());
        assert_eq!(a3.value(), Ok(x & y));
        assert_eq!(cs3.constraints(), cs.constraints());
        assert_eq!(cs3.witness_assignment(), cs.witness_assignment());
    }
}

#[test]
fn the_native_value_is_known_only_if_both_are() {
    let mut cs = ConstraintSystem::new();
    let known = UInt::<4, u8>::new_witness(&mut cs, || Ok(&0b1010)).unwrap();
    let wires = Vec::<Boolean>::new_witness(&mut cs, || Ok(&[true, true, false, false][..])).unwrap();
    let unknown = UInt::<4, u8>::from_bits_le(wires).unwrap();

    let c = known._and(&unknown, &mut cs).unwrap();
    assert_eq!(c.value(), Err(SynthesisError::AssignmentMissing));
    let d = unknown._and(&known, &mut cs).unwrap();
    assert_eq!(d.value(), Err(SynthesisError::AssignmentMissing));
    let e = unknown._and(&unknown, &mut cs).unwrap();
    assert_eq!(e.value(), Err(SynthesisError::AssignmentMissing));
    let f = known._and(&known, &mut cs).unwrap();
    assert_eq!(f.value(), Ok(0b1010));

    // the wires are combined all the same
    let read = |g: &UInt<4, u8>| -> Vec<bool> { g.bits().iter().map(|b| b.value(&cs).unwrap()).collect() };
    assert_eq!(read(&c), vec![false, true, false, false]);
    assert_eq!(read(&d), vec![false, true, false, false]);
    assert_eq!(read(&e), vec![true, true, false, false]);
    assert!(cs.is_satisfied());
}

#[test]
fn mixed_bits_fold_place_by_place() {
    let mut cs = ConstraintSystem::new();
    let w = Boolean::new_witness(&mut cs, || Ok(&true)).unwrap();
    let a = UInt::<3, u8>::from_bits_le(vec![Boolean::Constant(true), w, Boolean::Constant(true)]).unwrap();
    let b = UInt::<3, u8>::from_bits_le(vec![Boolean::Constant(false), Boolean::Constant(true), w]).unwrap();
    let before = counts(&cs);
    let c = a._and(&b, &mut cs).unwrap();
    assert_eq!(
        c.bits(),
        &vec![Boolean::Constant(false), Boolean::Var(Variable::Witness(1)), Boolean::Var(Variable::Witness(2))]
    );
    assert_eq!(counts(&cs), (before.0, before.1 + 2, before.2 + 2));
    assert!(cs.is_satisfied());
}

#[test]
fn a_wire_of_another_system_fails_the_conjunction() {
    let mut other = ConstraintSystem::new();
    UInt::<8, u8>::new_witness(&mut other, || Ok(&0)).unwrap();
    let foreign = UInt::<4, u8>::new_witness(&mut other, || Ok(&0b0110)).unwrap();

    let mut cs = ConstraintSystem::new();
    let mut a = UInt::<4, u8>::new_input(&mut cs, || Ok(&0b0011)).unwrap();
    let bits = a.bits().clone();
    assert_eq!(counts(&cs), (4, 0, 4));

    assert_eq!(a._and(&foreign, &mut cs).err(), Some(SynthesisError::AssignmentMissing));
    assert_eq!(counts(&cs), (4, 0, 4));
    assert_eq!(a._and_in_place(&foreign, &mut cs), Err(SynthesisError::AssignmentMissing));
    assert_eq!(a.bits(), &bits);
    assert_eq!(a.value(), Ok(0b0011));
    assert_eq!(counts(&cs), (4, 0, 4));
    assert_eq!(foreign._and(&a, &mut cs).err(), Some(SynthesisError::AssignmentMissing));
    assert_eq!(a.enforce_equal(&foreign, &mut cs), Err(SynthesisError::AssignmentMissing));
    assert_eq!(counts(&cs), (4, 0, 4));

    // what the places below the failure appended stays appended
    let w = Boolean::new_witness(&mut cs, || Ok(&true)).unwrap();
    let b = UInt::<4, u8>::from_bits_le(vec![w, w, Boolean::Var(Variable::Witness(40)), w]).unwrap();
    assert_eq!(counts(&cs), (4, 1, 5));
    assert_eq!(a._and_in_place(&b, &mut cs), Err(SynthesisError::AssignmentMissing));
    assert_eq!(counts(&cs), (4, 3, 7));
    assert_eq!(a.bits(), &bits);
    assert!(cs.is_satisfied());
}

#[test]
fn enforced_equality_of_integers() {
    for (x, y) in [(5u8, 5u8), (5, 4), (0, 255), (255, 255)] {
        for mode_a in modes() {
            for mode_b in [AllocationMode::Input, AllocationMode::Witness] {
                let mut cs = ConstraintSystem::new();
                let a = UInt::<8, u8>::new_variable(&mut cs, || Ok(&x), mode_a).unwrap();
                let b = UInt::<8, u8>::new_variable(&mut cs, || Ok(&y), mode_b).unwrap();
                let before = counts(&cs);
                assert_eq!(a.enforce_equal(&b, &mut cs), Ok(()));
                assert_eq!(counts(&cs), (before.0, before.1, before.2 + 8));
                assert_eq!(cs.is_satisfied(), x == y);
            }
        }
        let mut cs = ConstraintSystem::new();
        let r = UInt::<8, u8>::constant(x).enforce_equal(&UInt::constant(y), &mut cs);
        assert_eq!(r, if x == y { Ok(()) } else { Err(SynthesisError::Unsatisfiable) });
        assert_eq!(counts(&cs), (0, 0, 0));
    }
}

#[test]
fn the_conjunction_only_appends() {
    let mut cs = ConstraintSystem::new();
    let a = UInt::<8, u8>::new_witness(&mut cs, || Ok(&0x3c)).unwrap();
    let b = UInt::<8, u8>::new_input(&mut cs, || Ok(&0x0f)).unwrap();
    let instance = cs.instance_assignment().clone();
    let witness = cs.witness_assignment().clone();
    let rows = cs.constraints().clone();
    let c = a._and(&b, &mut cs).unwrap();
    assert_eq!(cs.instance_assignment(), &instance);
    assert_eq!(&cs.witness_assignment()[..8], witness.as_slice());
    assert_eq!(&cs.constraints()[..16], rows.as_slice());
    assert_eq!(&cs.witness_assignment()[8..], &[false, false, true, true, false, false, false, false]);
    assert_eq!(c.value(), Ok(0x0c));
}

#[test]
fn wide_conjunctions() {
    let mut cs = ConstraintSystem::new();
    let x = 0xffff_0000_ffff_0000_1234_5678_9abc_def0_u128;
    let y = 0x0f0f_0f0f_0f0f_0f0f_ffff_ffff_0000_0000_u128;
    let a = UInt::<128, u128>::new_witness(&mut cs, || Ok(&x)).unwrap();
    let b = UInt::<128, u128>::new_input(&mut cs, || Ok(&y)).unwrap();
    let c = a._and(&b, &mut cs).unwrap();
    assert_eq!(c.value(), Ok(0x0f0f_0000_0f0f_0000_1234_5678_0000_0000));
    assert_eq!(counts(&cs), (128, 256, 384));
    assert!(cs.is_satisfied());

    let a = UInt::<64, u64>::new_witness(&mut cs, || Ok(&0xdead_beef_0bad_f00d)).unwrap();
    let c = a.bitand_native(0x0000_ffff_ffff_0000, &mut cs);
    assert_eq!(c.value(), Ok(0x0000_beef_0bad_0000));
    let a = UInt::<32, u32>::new_witness(&mut cs, || Ok(&0xdead_beef)).unwrap();
    let c = a.bitand_native(0xff00_ff00, &mut cs);
    assert_eq!(c.value(), Ok(0xde00_be00));
    let a = UInt::<16, u16>::new_witness(&mut cs, || Ok(&0xbeef)).unwrap();
    let c = a.bitand_native(0x0ff0, &mut cs);
    assert_eq!(c.value(), Ok(0x0ee0));
    assert!(cs.is_satisfied());
}
