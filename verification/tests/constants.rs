use abstract_domain::il::{Constant, Scalar};
use abstract_domain::operator::{Extension, Operator};

fn c(value: u64, bits: usize) -> Constant {
    Constant { value, bits }
}

#[test]
fn constant_is_reduced_to_its_width() {
    assert_eq!(Constant::new(0x1ff, 8), Some(c(0xff, 8)));
    assert_eq!(Constant::new(0x1234_5678, 32), Some(c(0x1234_5678, 32)));
    assert_eq!(Constant::new(u64::MAX, 64), Some(c(u64::MAX, 64)));
    assert_eq!(Constant::new(3, 1), Some(c(1, 1)));
}

#[test]
fn constant_needs_a_width_of_1_to_64_bits() {
    assert_eq!(Constant::new(5, 0), None);
    assert_eq!(Constant::new(5, 65), None);
}

#[test]
fn constant_getters() {
    let k = c(7, 16);
    assert_eq!(k.value(), 7);
    assert_eq!(k.bits(), 16);
}

#[test]
fn well_formed_constants() {
    assert!(c(255, 8).is_wf());
    assert!(!c(256, 8).is_wf());
    assert!(!c(0, 0).is_wf());
    assert!(!c(0, 65).is_wf());
    assert!(c(u64::MAX, 64).is_wf());
}

#[test]
fn scalar_holds_name_and_width() {
    let x = Scalar::new("eax", 32);
    assert_eq!(x.name(), "eax");
    assert_eq!(x.bits(), 32);
    assert_eq!(x, x.clone());
    assert_ne!(x, Scalar::new("eax", 16));
    assert_ne!(x, Scalar::new("ebx", 32));
}

#[test]
fn add_wraps() {
    assert_eq!(Operator::Add.apply(c(0xff, 8), c(2, 8)), Some(c(1, 8)));
    assert_eq!(Operator::Add.apply(c(2, 8), c(3, 8)), Some(c(5, 8)));
    assert_eq!(Operator::Add.apply(c(u64::MAX, 64), c(1, 64)), Some(c(0, 64)));
}

#[test]
fn sub_wraps() {
    assert_eq!(Operator::Sub.apply(c(1, 8), c(2, 8)), Some(c(0xff, 8)));
    assert_eq!(Operator::Sub.apply(c(9, 8), c(2, 8)), Some(c(7, 8)));
    assert_eq!(Operator::Sub.apply(c(0, 64), c(1, 64)), Some(c(u64::MAX, 64)));
}

#[test]
fn mul_wraps() {
    assert_eq!(Operator::Mul.apply(c(16, 8), c(17, 8)), Some(c(16, 8)));
    assert_eq!(Operator::Mul.apply(c(6, 8), c(7, 8)), Some(c(42, 8)));
    assert_eq!(Operator::Mul.apply(c(u64::MAX, 64), c(u64::MAX, 64)), Some(c(1, 64)));
}

#[test]
fn unsigned_division() {
    assert_eq!(Operator::Divu.apply(c(200, 8), c(7, 8)), Some(c(28, 8)));
    assert_eq!(Operator::Modu.apply(c(200, 8), c(7, 8)), Some(c(4, 8)));
}

#[test]
fn division_by_zero_is_undefined() {
    assert_eq!(Operator::Divu.apply(c(200, 8), c(0, 8)), None);
    assert_eq!(Operator::Modu.apply(c(200, 8), c(0, 8)), None);
    assert_eq!(Operator::Divs.apply(c(200, 8), c(0, 8)), None);
    assert_eq!(Operator::Mods.apply(c(200, 8), c(0, 8)), None);
}

#[test]
fn signed_division_rounds_toward_zero() {
    // -7 / 2 == -3, -7 % 2 == -1
    assert_eq!(Operator::Divs.apply(c(0xf9, 8), c(2, 8)), Some(c(0xfd, 8)));
    assert_eq!(Operator::Mods.apply(c(0xf9, 8), c(2, 8)), Some(c(0xff, 8)));
    // 7 / -2 == -3, 7 % -2 == 1
    assert_eq!(Operator::Divs.apply(c(7, 8), c(0xfe, 8)), Some(c(0xfd, 8)));
    assert_eq!(Operator::Mods.apply(c(7, 8), c(0xfe, 8)), Some(c(1, 8)));
    // -7 / -2 == 3
    assert_eq!(Operator::Divs.apply(c(0xf9, 8), c(0xfe, 8)), Some(c(3, 8)));
    // -128 / -1 wraps to -128
    assert_eq!(Operator::Divs.apply(c(0x80, 8), c(0xff, 8)), Some(c(0x80, 8)));
    assert_eq!(Operator::Mods.apply(c(0x80, 8), c(0xff, 8)), Some(c(0, 8)));
    let min = 1u64 << 63;
    assert_eq!(Operator::Divs.apply(c(min, 64), c(u64::MAX, 64)), Some(c(min, 64)));
}

#[test]
fn bitwise_operators() {
    assert_eq!(Operator::And.apply(c(0b1100, 4), c(0b1010, 4)), Some(c(0b1000, 4)));
    assert_eq!(Operator::Or.apply(c(0b1100, 4), c(0b1010, 4)), Some(c(0b1110, 4)));
    assert_eq!(Operator::Xor.apply(c(0b1100, 4), c(0b1010, 4)), Some(c(0b0110, 4)));
}

#[test]
fn shifts() {
    assert_eq!(Operator::Shl.apply(c(0x81, 8), c(1, 8)), Some(c(0x02, 8)));
    assert_eq!(Operator::Shl.apply(c(0x81, 8), c(8, 8)), Some(c(0, 8)));
    assert_eq!(Operator::Shl.apply(c(1, 64), c(63, 64)), Some(c(1 << 63, 64)));
    assert_eq!(Operator::Shr.apply(c(0x81, 8), c(1, 8)), Some(c(0x40, 8)));
    assert_eq!(Operator::Shr.apply(c(0x81, 8), c(9, 8)), Some(c(0, 8)));
    assert_eq!(Operator::Shr.apply(c(u64::MAX, 64), c(63, 64)), Some(c(1, 64)));
}

#[test]
fn comparisons_give_one_bit() {
    assert_eq!(Operator::Cmpeq.apply(c(5, 8), c(5, 8)), Some(c(1, 1)));
    assert_eq!(Operator::Cmpeq.apply(c(5, 8), c(6, 8)), Some(c(0, 1)));
    assert_eq!(Operator::Cmpneq.apply(c(5, 8), c(6, 8)), Some(c(1, 1)));
    assert_eq!(Operator::Cmpneq.apply(c(5, 8), c(5, 8)), Some(c(0, 1)));
    assert_eq!(Operator::Cmpltu.apply(c(5, 8), c(0xff, 8)), Some(c(1, 1)));
    assert_eq!(Operator::Cmpltu.apply(c(0xff, 8), c(5, 8)), Some(c(0, 1)));
    // as signed operands 0xff is -1
    assert_eq!(Operator::Cmplts.apply(c(5, 8), c(0xff, 8)), Some(c(0, 1)));
    assert_eq!(Operator::Cmplts.apply(c(0xff, 8), c(5, 8)), Some(c(1, 1)));
}

#[test]
fn operators_need_well_formed_operands_of_one_width() {
    assert_eq!(Operator::Add.apply(c(1, 8), c(1, 16)), None);
    assert_eq!(Operator::Add.apply(c(256, 8), c(1, 8)), None);
    assert_eq!(Operator::Cmpeq.apply(c(1, 8), c(1, 0)), None);
}

#[test]
fn extensions() {
    assert_eq!(Extension::Zext.apply(16, c(0x80, 8)), Some(c(0x80, 16)));
    assert_eq!(Extension::Sext.apply(16, c(0x80, 8)), Some(c(0xff80, 16)));
    assert_eq!(Extension::Sext.apply(16, c(0x7f, 8)), Some(c(0x7f, 16)));
    assert_eq!(Extension::Sext.apply(64, c(0xff, 8)), Some(c(u64::MAX, 64)));
    assert_eq!(Extension::Trun.apply(8, c(0x1234, 16)), Some(c(0x34, 8)));
    assert_eq!(Extension::Zext.apply(8, c(0x80, 8)), Some(c(0x80, 8)));
}

#[test]
fn extensions_need_a_fitting_width() {
    assert_eq!(Extension::Zext.apply(4, c(0x80, 8)), None);
    assert_eq!(Extension::Sext.apply(65, c(0x80, 8)), None);
    assert_eq!(Extension::Trun.apply(16, c(0x80, 8)), None);
    assert_eq!(Extension::Trun.apply(0, c(0x80, 8)), None);
    assert_eq!(Extension::Zext.apply(16, c(0x100, 8)), None);
}
