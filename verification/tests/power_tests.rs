use ipc_transport::power::{
    display_state_from_data, power_event_of, start_power_event_listener,
    stop_power_event_listener, PowerEventType,
};

#[test]
fn power_words_classify_to_their_events() {
    assert_eq!(power_event_of(4), Some(PowerEventType::Suspend));
    assert_eq!(power_event_of(18), Some(PowerEventType::ResumeAutomatic));
    assert_eq!(power_event_of(7), Some(PowerEventType::ResumeSuspend));
    assert_eq!(power_event_of(32787), None);
    assert_eq!(power_event_of(0), None);
}

#[test]
fn display_state_reads_four_bytes_little_endian() {
    assert_eq!(display_state_from_data(&vec![1, 0, 0, 0], 4), 1);
    assert_eq!(display_state_from_data(&vec![0, 1, 0, 0], 4), 256);
    assert_eq!(display_state_from_data(&vec![2, 0, 0, 0, 9, 9], 6), 2);
    assert_eq!(display_state_from_data(&vec![0xff, 0xff, 0xff, 0xff], 4), u32::MAX);
}

#[test]
fn short_display_payloads_read_as_zero() {
    assert_eq!(display_state_from_data(&vec![1, 2], 2), 0);
    assert_eq!(display_state_from_data(&vec![], 0), 0);
    assert_eq!(display_state_from_data(&vec![7], 4), 7);
}

#[test]
fn listener_entry_points_are_callable() {
    start_power_event_listener();
    stop_power_event_listener();
}
