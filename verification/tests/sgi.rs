use ykrt::sgi::{const_to_sgvalue, Frame, SGValue};

#[test]
fn a_branch_takes_its_first_successor_on_one() {
    assert!(SGValue::U32(1).takes_branch());
    assert!(SGValue::U64(1).takes_branch());
    assert!(!SGValue::U32(0).takes_branch());
    assert!(!SGValue::U64(2).takes_branch());
    assert_eq!(SGValue::U64(1).successor(), 0);
    assert_eq!(SGValue::U32(0).successor(), 1);
    assert_eq!(SGValue::U32(7).successor(), 1);
}

#[test]
fn exit_code_is_the_low_word() {
    assert_eq!(SGValue::U32(3).exit_code(), 3);
    assert_eq!(SGValue::U32(u32::MAX).exit_code(), -1);
    assert_eq!(SGValue::U64(0x1_0000_0002).exit_code(), 2);
    assert_eq!(SGValue::U64(0x8000_0000).exit_code(), i32::MIN);
}

#[test]
fn integer_constants_of_32_and_64_bits_have_values() {
    assert_eq!(const_to_sgvalue(32, 0x1_0000_0007), Some(SGValue::U32(7)));
    assert_eq!(const_to_sgvalue(64, u64::MAX), Some(SGValue::U64(u64::MAX)));
    assert_eq!(const_to_sgvalue(1, 1), None);
    assert_eq!(const_to_sgvalue(16, 1), None);
}

#[test]
fn frame_holds_the_latest_value_of_each_variable() {
    let mut frame = Frame::new();
    assert_eq!(frame.get(0x1000), None);
    frame.add(0x1000, SGValue::U32(1));
    frame.add(0x2000, SGValue::U64(2));
    frame.add(0x1000, SGValue::U32(3));
    assert_eq!(frame.get(0x1000), Some(SGValue::U32(3)));
    assert_eq!(frame.get(0x2000), Some(SGValue::U64(2)));
    assert_eq!(frame.get(0x3000), None);
}
