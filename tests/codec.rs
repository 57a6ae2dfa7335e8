use redox_event::{
    decode_batch, encode_batch, encode_record, ChannelError, DecodeError, EventFlags,
    RawEventQueue, RawEventV1, ReadStep, UserData, RECORD_SIZE,
};

#[test]
fn record_layout_is_little_endian_with_padding() {
    let r = RawEventV1 { fd: 0x0102, user_data: 0x0a0b0c, flags: 3 };
    let bytes = encode_record(&r);
    assert_eq!(bytes.len(), RECORD_SIZE);
    assert_eq!(
        bytes,
        vec![
            2, 1, 0, 0, 0, 0, 0, 0, 0x0c, 0x0b, 0x0a, 0, 0, 0, 0, 0, 3, 0, 0, 0, 0, 0, 0, 0
        ]
    );
}

#[test]
fn decode_gives_records_in_order() {
    let rs = vec![
        RawEventV1 { fd: 1, user_data: 10, flags: 1 },
        RawEventV1 { fd: 2, user_data: 20, flags: 2 },
        RawEventV1 { fd: usize::MAX, user_data: usize::MAX, flags: u32::MAX },
    ];
    let bytes = encode_batch(&rs);
    assert_eq!(bytes.len(), 3 * RECORD_SIZE);
    assert_eq!(decode_batch(&bytes), Ok(rs));
}

#[test]
fn decode_empty_is_empty() {
    assert_eq!(decode_batch(&[]), Ok(vec![]));
}

#[test]
fn decode_rejects_partial_record() {
    let bytes = vec![0u8; 30];
    assert_eq!(decode_batch(&bytes), Err(DecodeError::Length { len: 30 }));
}

#[test]
fn decode_ignores_padding() {
    let mut bytes = encode_record(&RawEventV1 { fd: 5, user_data: 6, flags: 1 });
    bytes[23] = 0xff;
    assert_eq!(decode_batch(&bytes), Ok(vec![RawEventV1 { fd: 5, user_data: 6, flags: 1 }]));
}

#[test]
fn flags_bits() {
    let rw = EventFlags::read().union(EventFlags::write());
    assert_eq!(rw.bits(), 3);
    assert!(rw.contains(EventFlags::read()));
    assert!(!EventFlags::read().contains(EventFlags::write()));
    assert!(EventFlags::empty().is_empty());
    assert_eq!(EventFlags::from_bits_retain(8).bits(), 8);
}

#[test]
fn channel_create_result() {
    assert_eq!(RawEventQueue::new(12).unwrap().as_raw(), 12);
    assert_eq!(RawEventQueue::new(usize::MAX).err(), Some(ChannelError::Os { errno: 1 }));
    assert_eq!(RawEventQueue::new(usize::MAX - 4095).unwrap().as_raw(), usize::MAX - 4095);
    assert_eq!(RawEventQueue::new(usize::MAX - 4094).err(), Some(ChannelError::Os { errno: 4095 }));
}

#[test]
fn read_results() {
    assert_eq!(RawEventQueue::settle_read(3, 4), ReadStep::Ready { count: 3 });
    assert_eq!(RawEventQueue::settle_read(4, 4), ReadStep::Ready { count: 4 });
    assert_eq!(
        RawEventQueue::settle_read(5, 4),
        ReadStep::Failed(ChannelError::Overrun { count: 5 })
    );
    assert_eq!(RawEventQueue::settle_read(0, 4), ReadStep::Closed);
    assert_eq!(RawEventQueue::settle_read(usize::MAX - 3, 4), ReadStep::Retry);
    assert_eq!(
        RawEventQueue::settle_read(usize::MAX - 12, 4),
        ReadStep::Failed(ChannelError::Os { errno: 13 })
    );
}

#[test]
fn write_results() {
    assert_eq!(RawEventQueue::settle_write(0), Ok(()));
    assert_eq!(RawEventQueue::settle_write(usize::MAX - 1), Err(ChannelError::Os { errno: 2 }));
}

#[test]
fn subscription_records() {
    let s = RawEventQueue::subscription(4, 9, EventFlags::write());
    assert_eq!(s, RawEventV1 { fd: 4, user_data: 9, flags: 2 });
    assert_eq!(RawEventQueue::unsubscription(4, 9), RawEventV1 { fd: 4, user_data: 9, flags: 0 });
}

#[test]
fn usize_user_data_round_trips() {
    assert_eq!(17usize.into_user_data(), 17);
    assert_eq!(<usize as UserData>::from_user_data(17), Ok(17));
}
