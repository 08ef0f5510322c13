use download_manager_engine::companion::{RelayError, check_acknowledgement, frame_message};

#[test]
fn frames_carry_a_little_endian_length_prefix() {
    assert_eq!(frame_message(b"{}", 1024), Ok(vec![2, 0, 0, 0, b'{', b'}']));
    let body = vec![7u8; 300];
    let frame = frame_message(&body, 1024).expect("frame");
    assert_eq!(&frame[..4], &[44, 1, 0, 0]);
    assert_eq!(&frame[4..], body.as_slice());
}

#[test]
fn empty_and_oversized_frames_are_output_failures() {
    assert_eq!(frame_message(b"", 1024), Err(RelayError::Output));
    assert_eq!(frame_message(&[1u8; 5], 4), Err(RelayError::Output));
    assert!(frame_message(&[1u8; 4], 4).is_ok());
}

#[test]
fn only_the_completion_byte_acknowledges_output() {
    assert_eq!(check_acknowledgement(1), Ok(()));
    assert_eq!(check_acknowledgement(0), Err(RelayError::Output));
    assert_eq!(check_acknowledgement(2), Err(RelayError::Output));
}
