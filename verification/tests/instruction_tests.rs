use binbased_tracing::instruction::encode::{
    build_add, build_ldp, build_ldr_offset, build_mov, build_movk, build_movz, build_stp,
    load_field_from_register,
};

#[test]
fn instruction_build_stp_test() {
    assert_eq!(build_stp(0, 1, 31, -16), 0xa9bf07e0);
    assert_eq!(build_stp(16, 17, 31, -16), 0xa9bf47f0);
}

#[test]
fn encode_build_stp_test() {
    assert_eq!(build_stp(0, 1, 31, -16), 0xa9bf07e0);
    assert_eq!(build_stp(16, 17, 31, -16), 0xa9bf47f0);
}

#[test]
fn instruction_build_ldp_test() {
    assert_eq!(build_ldp(16, 17, 31, 16), 0xa8c147f0)
}

#[test]
fn encode_build_ldp_test() {
    assert_eq!(build_ldp(16, 17, 31, 16), 0xa8c147f0)
}

#[test]
fn instruction_build_movz_test() {
    assert_eq!(build_movz(0, 0xffff, 0), 0xd29fffe0);
    assert_eq!(build_movz(0, 0x8b0f, 16), 0xd2b161e0);
    assert_eq!(build_movz(8, 0x40, 0), 0xd2800808)
}

#[test]
fn encode_build_movz_test() {
    assert_eq!(build_movz(0, 0xffff, 0), 0xd29fffe0);
    assert_eq!(build_movz(0, 0x8b0f, 16), 0xd2b161e0);
    assert_eq!(build_movz(8, 0x40, 0), 0xd2800808)
}

#[test]
fn instruction_build_movk_test() {
    assert_eq!(build_movk(0, 0xffff, 0), 0xf29fffe0);
    assert_eq!(build_movk(0, 0x8b0f, 16), 0xf2b161e0);
}

#[test]
fn encode_build_movk_test() {
    assert_eq!(build_movk(0, 0xffff, 0), 0xf29fffe0);
    assert_eq!(build_movk(0, 0x8b0f, 16), 0xf2b161e0);
}

#[test]
fn instruction_build_mov_test() {
    assert_eq!(build_mov(0, 28), 0xaa1c03e0);
    assert_eq!(build_mov(1, 28), 0xaa1c03e1);
    assert_eq!(build_mov(2, 3), 0xaa0303e2);
}

#[test]
fn encode_build_mov_test() {
    assert_eq!(build_mov(0, 28), 0xaa1c03e0);
    assert_eq!(build_mov(1, 28), 0xaa1c03e1);
    assert_eq!(build_mov(2, 3), 0xaa0303e2);
}

#[test]
fn instruction_build_ldr_offset_test() {
    assert_eq!(build_ldr_offset(0, 28, 0), 0xf9400380);
    assert_eq!(build_ldr_offset(0, 0, 0), 0xf9400000);
    assert_eq!(build_ldr_offset(0, 28, 152), 0xf9404f80);
}

#[test]
fn encode_build_ldr_offset_test() {
    assert_eq!(build_ldr_offset(0, 28, 0), 0xf9400380);
    assert_eq!(build_ldr_offset(0, 0, 0), 0xf9400000);
    assert_eq!(build_ldr_offset(0, 28, 152), 0xf9404f80);
}

#[test]
fn instruction_build_add_test() {
    assert_eq!(build_add(0, 1, 0), 0x8b000020);
    assert_eq!(build_add(0, 28, 0), 0x8b000380);
}

#[test]
fn encode_build_add_test() {
    assert_eq!(build_add(0, 1, 0), 0x8b000020);
    assert_eq!(build_add(0, 28, 0), 0x8b000380);
}

#[test]
fn instruction_test_load_field_from_register() {
    let inst = load_field_from_register(0, 28, 0);
    assert_eq!(inst.get(0), Some(0xf9400380));

    let inst = load_field_from_register(0, 28, 152);
    assert_eq!(inst.get(0), Some(0xf9404f80));

    let inst = load_field_from_register(2, 28, 152);
    assert_eq!(inst.get(0), Some(0xf9404f82));

    let inst = load_field_from_register(0, 28, 40000);
    assert_eq!(inst.get(0), Some(build_mov(1, 28)));
}

#[test]
fn encode_test_load_field_from_register() {
    let inst = load_field_from_register(0, 28, 0);
    assert_eq!(inst.get(0), Some(0xf9400380));

    let inst = load_field_from_register(0, 28, 152);
    assert_eq!(inst.get(0), Some(0xf9404f80));

    let inst = load_field_from_register(2, 28, 152);
    assert_eq!(inst.get(0), Some(0xf9404f82));

    let inst = load_field_from_register(0, 28, 40000);
    assert_eq!(inst.get(0), Some(build_mov(1, 28)));
}
