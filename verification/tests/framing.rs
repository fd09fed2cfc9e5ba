use ti_protocol::packet::{HEADER_SIZE, MAGIC_FLAG};
use ti_protocol::{
    get_header_size, PackType, Packet, PacketHeader, Task, TaskResult, TiPack, TiUnPack,
};

#[test]
fn header_size_is_fourteen_every_time() {
    assert_eq!(get_header_size(), 14);
    assert_eq!(get_header_size(), get_header_size());
    assert_eq!(get_header_size(), HEADER_SIZE);
    let placeholder = PacketHeader::new(0, PackType::Task).pack().unwrap();
    assert_eq!(get_header_size(), placeholder.len());
}

#[test]
fn header_size_does_not_depend_on_the_header() {
    for body_size in [0u64, 1, 255, 256, 1 << 32, u64::MAX] {
        for flag in [0u16, 1, MAGIC_FLAG, u16::MAX] {
            let header = PacketHeader { flag, body_size, pack_type: PackType::TaskResult };
            assert_eq!(header.pack().unwrap().len(), get_header_size());
        }
    }
}

#[test]
fn header_has_the_documented_bytes() {
    let header = PacketHeader::new(0x0102030405060708, PackType::TaskResult);
    assert_eq!(
        header.pack().unwrap(),
        vec![0xaa, 0x55, 8, 7, 6, 5, 4, 3, 2, 1, 1, 0, 0, 0]
    );
    let header = PacketHeader::new(0, PackType::Task);
    assert_eq!(
        header.pack().unwrap(),
        vec![0xaa, 0x55, 0, 0, 0, 0, 0, 0, 0, 0, 0, 0, 0, 0]
    );
}

#[test]
fn header_round_trips() {
    for body_size in [0u64, 12, 65535, 65536, u64::MAX] {
        let header = PacketHeader::new(body_size, PackType::TaskResult);
        let decoded = PacketHeader::unpack(&header.pack().unwrap()).unwrap();
        assert_eq!(decoded, header);
        let header = PacketHeader { flag: 0x1234, body_size, pack_type: PackType::Task };
        let decoded = PacketHeader::unpack(&header.pack().unwrap()).unwrap();
        assert_eq!(decoded, header);
    }
}

#[test]
fn new_header_carries_the_sentinel() {
    let header = PacketHeader::new(99, PackType::Task);
    assert_eq!(header.flag, 0x55aa);
    assert_eq!(MAGIC_FLAG, 0x55aa);
    assert_eq!(header.body_size, 99);
    assert_eq!(header.pack_type, PackType::Task);
    assert!(header.check_flag());
}

#[test]
fn altered_flag_fails_the_check() {
    let good = PacketHeader::new(3, PackType::Task).pack().unwrap();
    assert!(PacketHeader::unpack(&good).unwrap().check_flag());
    for (low, high) in [(0xaau8, 0x54u8), (0xab, 0x55), (0x55, 0xaa), (0, 0), (0xff, 0xff)] {
        let mut bytes = good.clone();
        bytes[0] = low;
        bytes[1] = high;
        let decoded = PacketHeader::unpack(&bytes).unwrap();
        assert!(!decoded.check_flag());
        assert_eq!(decoded.flag, u16::from_le_bytes([low, high]));
        assert_eq!(decoded.body_size, 3);
    }
}

#[test]
fn header_of_any_other_length_is_rejected() {
    let good = PacketHeader::new(3, PackType::Task).pack().unwrap();
    for kept in 0..good.len() {
        assert!(PacketHeader::unpack(&good[..kept]).is_err());
    }
    let mut longer = good.clone();
    longer.push(0);
    assert!(PacketHeader::unpack(&longer).is_err());
}

#[test]
fn header_with_unknown_kind_is_rejected() {
    let mut bytes = PacketHeader::new(3, PackType::Task).pack().unwrap();
    bytes[10] = 2;
    assert!(PacketHeader::unpack(&bytes).is_err());
    bytes[10] = 0;
    bytes[13] = 1;
    assert!(PacketHeader::unpack(&bytes).is_err());
}

#[test]
fn packet_records_the_length_of_its_body() {
    let task = Task::new(10, "test".to_string());
    let body = task.pack().unwrap();
    let packet = Packet::new(PackType::Task, task).unwrap();
    assert_eq!(packet.header.body_size, body.len() as u64);
    assert_eq!(packet.header.body_size, 16);
    assert_eq!(packet.header.pack_type, PackType::Task);
    assert!(packet.header.check_flag());
    assert_eq!(packet.data, body);
}

#[test]
fn packet_is_header_then_body() {
    let outcome = TaskResult::new(5, Err("boom".to_string()));
    let body = outcome.pack().unwrap();
    let packet = Packet::new(PackType::TaskResult, outcome).unwrap();
    let bytes = packet.pack().unwrap();
    let mut expected = vec![0xaa, 0x55, 20, 0, 0, 0, 0, 0, 0, 0, 1, 0, 0, 0];
    expected.extend_from_slice(&body);
    assert_eq!(bytes, expected);
}

#[test]
fn packet_from_a_task_result_starts_with_its_header() {
    let outcome = TaskResult::new(10, Ok(1000));
    let packet = Packet::new(PackType::TaskResult, outcome).unwrap();
    let bytes = packet.pack().unwrap();
    let size = get_header_size();
    let header = PacketHeader::unpack(&bytes[..size]).unwrap();
    assert!(header.check_flag());
    assert_eq!(header.pack_type, PackType::TaskResult);
    assert_eq!(header.body_size as usize, bytes.len() - size);
    let decoded = TaskResult::unpack(&bytes[size..]).unwrap();
    assert_eq!(decoded, TaskResult::new(10, Ok(1000)));
}

#[test]
fn packet_body_is_not_encoded_again() {
    let packet = Packet {
        header: PacketHeader::new(3, PackType::Task),
        data: vec![9, 8, 7],
    };
    let bytes = packet.pack().unwrap();
    assert_eq!(bytes.len(), get_header_size() + 3);
    assert_eq!(&bytes[get_header_size()..], &[9, 8, 7]);
}

#[test]
fn packet_with_empty_body() {
    let packet = Packet::from_packed(PackType::Task, Ok(Vec::new())).unwrap();
    assert_eq!(packet.header, PacketHeader::new(0, PackType::Task));
    assert_eq!(packet.pack().unwrap().len(), get_header_size());
}

#[test]
fn failed_encoding_is_handed_on() {
    let outcome = Packet::from_packed(PackType::Task, Err("no bytes".to_string()));
    assert_eq!(outcome, Err("no bytes".to_string()));
}

#[test]
fn framing_encoded_bytes_gives_the_same_packet() {
    let body = Task::new(1, "a".to_string()).pack().unwrap();
    let framed = Packet::from_packed(PackType::Task, Ok(body)).unwrap();
    let built = Packet::new(PackType::Task, Task::new(1, "a".to_string())).unwrap();
    assert_eq!(framed, built);
}

#[test]
fn packets_are_equal_by_value() {
    let one = Packet::new(PackType::Task, Task::new(1, "a".to_string())).unwrap();
    let same = Packet::new(PackType::Task, Task::new(1, "a".to_string())).unwrap();
    let other_body = Packet::new(PackType::Task, Task::new(1, "b".to_string())).unwrap();
    let other_kind = Packet::new(PackType::TaskResult, Task::new(1, "a".to_string())).unwrap();
    assert_eq!(one, same);
    assert_ne!(one, other_body);
    assert_ne!(one, other_kind);
}

#[test]
fn header_is_encoded_as_bincode_encodes_its_fields() {
    let header = PacketHeader::new(515, PackType::TaskResult);
    let fields: Vec<u8> = bincode::serialize(&(0x55aau16, 515u64, 1u32)).unwrap();
    assert_eq!(header.pack().unwrap(), fields);
}
