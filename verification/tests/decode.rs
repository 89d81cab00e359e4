use votings_service::decode::decode_choices;

#[test]
fn packed_choices_are_read() {
    assert_eq!(decode_choices(&[0x0a, 0x02, 0x01, 0x02]), vec![1, 2]);
}

#[test]
fn unpacked_choices_are_read() {
    assert_eq!(decode_choices(&[0x08, 0x01, 0x08, 0x02]), vec![1, 2]);
}

#[test]
fn multi_byte_numbers_are_read() {
    assert_eq!(decode_choices(&[0x08, 0xac, 0x02]), vec![300]);
}

#[test]
fn an_empty_message_has_no_choices() {
    assert_eq!(decode_choices(&[]), Vec::<u32>::new());
}

#[test]
fn other_fields_are_passed_over() {
    assert_eq!(decode_choices(&[0x10, 0x05, 0x08, 0x03]), vec![3]);
}

#[test]
fn choices_before_a_malformed_field_are_kept() {
    assert_eq!(decode_choices(&[0x08, 0x01, 0x08]), vec![1]);
}

#[test]
fn a_packed_length_past_the_end_of_positions_gives_nothing() {
    let message = [0x0a, 0xf5, 0xff, 0xff, 0xff, 0xff, 0xff, 0xff, 0xff, 0xff, 0x01, 0x01];
    assert_eq!(decode_choices(&message), Vec::<u32>::new());
}

#[test]
fn fields_after_other_fields_are_read_at_their_position() {
    assert_eq!(decode_choices(&[0x08, 0x04, 0x10, 0x07, 0x0a, 0x02, 0x05, 0x06]), vec![4, 5, 6]);
}
