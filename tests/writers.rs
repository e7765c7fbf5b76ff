use scribe::packet::{parse_packets, Kind, PtPacket, PtwParser};
use scribe::writer::{
    idle_action, push_le_bytes, write_batch, PacketWriter, PcMap, PtwWriter, TipWriter,
    WriterAction, MAX_TASKS,
};

fn le(x: u64) -> Vec<u8> {
    x.to_le_bytes().to_vec()
}

#[test]
fn ptw_single_region_output() {
    let packets = vec![
        PtPacket::Other,
        PtPacket::Ptw(0x11),
        PtPacket::Ptw(0x22),
        PtPacket::Ptw(0x33),
        PtPacket::Other,
    ];
    let batch = parse_packets::<PtwParser>(&packets);
    let mut w = PtwWriter::new();
    let out = write_batch(&mut w, &(), &batch);
    let mut expected = vec![0x11, 0, 0, 0, 0, 0, 0, 0];
    expected.extend([0x22, 0, 0, 0, 0, 0, 0, 0]);
    expected.extend([0x33, 0, 0, 0, 0, 0, 0, 0]);
    assert_eq!(out.len(), 24);
    assert_eq!(out, expected);
}

#[test]
fn le_bytes_of_word() {
    let mut v = vec![0xFF];
    push_le_bytes(&mut v, 0x0102_0304_0506_0708);
    assert_eq!(v, vec![0xFF, 8, 7, 6, 5, 4, 3, 2, 1]);
}

#[test]
fn tip_update16_after_full_ip() {
    let mut map = PcMap::new();
    map.insert_mapping(0x4000, 0xDEAD);
    let mut w = TipWriter::new();
    let batch = vec![(Kind::Update64, 0x4000), (Kind::Update16, 0x4009)];
    let out = write_batch(&mut w, &map, &batch);
    assert_eq!(w.last_ip(), 0x4009);
    assert_eq!(out, vec![0xAD, 0xDE, 0, 0, 0, 0, 0, 0]);
}

#[test]
fn tip_update16_replaces_all_low_bits() {
    let mut map = PcMap::new();
    map.insert_mapping(0x4000, 0xDEAD);
    let mut w = TipWriter::new();
    let batch = vec![(Kind::Update64, 0x1_0000_4000), (Kind::Update16, 0x0009)];
    let out = write_batch(&mut w, &map, &batch);
    assert_eq!(w.last_ip(), 0x1_0000_0009);
    assert!(out.is_empty());
}

#[test]
fn tip_update_masks() {
    let map = PcMap::new();
    let mut w = TipWriter::new();
    w.calculate_pc(&map, &(Kind::Update64, 0x1122_3344_5566_7788));
    w.calculate_pc(&map, &(Kind::Update16, 0xAAAA));
    assert_eq!(w.last_ip(), 0x1122_3344_5566_AAAA);
    w.calculate_pc(&map, &(Kind::Update32, 0xBBBB_CCCC));
    assert_eq!(w.last_ip(), 0x1122_3344_BBBB_CCCC);
    w.calculate_pc(&map, &(Kind::Update48, 0x0000_1234_5678_9ABC));
    assert_eq!(w.last_ip(), 0x1122_1234_5678_9ABC);
}

#[test]
fn tip_sext48_sets_high_bits() {
    let map = PcMap::new();
    let mut w = TipWriter::new();
    let pc = w.calculate_pc(&map, &(Kind::SignExtend48, 0xFFFF_FFFF_FFFF));
    assert_eq!(w.last_ip(), 0xFFFF_FFFF_FFFF_FFFF);
    assert_eq!(pc, None);
}

#[test]
fn tip_sext48_with_clear_bit_47() {
    let map = PcMap::new();
    let mut w = TipWriter::new();
    w.calculate_pc(&map, &(Kind::SignExtend48, 0x7FFF_FFFF_FFFF));
    assert_eq!(w.last_ip(), 0x0000_7FFF_FFFF_FFFF);
}

#[test]
fn tip_sext48_emits_when_mapped() {
    let mut map = PcMap::new();
    map.insert_mapping(0xFFFF_FFFF_FFFF_FFFF - 9, 0x77);
    let mut w = TipWriter::new();
    let pc = w.calculate_pc(&map, &(Kind::SignExtend48, 0x8000_0000_0000 | 0x7FFF_FFFF_FFFF));
    assert_eq!(pc, Some(0x77));
}

#[test]
fn fup_updates_without_emitting() {
    let mut map = PcMap::new();
    map.insert_mapping(0xCAFE - 9, 0x1);
    map.insert_mapping(0xBEEF - 9, 0x1234);
    let mut w = TipWriter::new();
    let pc = w.calculate_pc(&map, &(Kind::Update64NoEmit, 0xCAFE));
    assert_eq!(pc, None);
    assert_eq!(w.last_ip(), 0xCAFE);
    let pc = w.calculate_pc(&map, &(Kind::Update32, 0xBEEF));
    assert_eq!(w.last_ip(), 0xBEEF);
    assert_eq!(pc, Some(0x1234));
}

#[test]
fn tip_unmapped_and_low_ips_emit_nothing() {
    let mut map = PcMap::new();
    map.insert_mapping(0, 0x55);
    let mut w = TipWriter::new();
    assert_eq!(w.calculate_pc(&map, &(Kind::Update64, 0x8)), None);
    assert_eq!(w.calculate_pc(&map, &(Kind::Update64, 0x9)), Some(0x55));
    assert_eq!(w.calculate_pc(&map, &(Kind::Update64, 0x100)), None);
}

#[test]
fn tip_replay_from_zero_is_identical() {
    let mut map = PcMap::new();
    map.insert_mapping(0x4000, 0xA);
    map.insert_mapping(0x4100, 0xB);
    let batch = vec![
        (Kind::Update64, 0x4009),
        (Kind::Update16, 0x4109),
        (Kind::Update64NoEmit, 0x0),
        (Kind::Update32, 0x4009),
    ];
    let mut first = TipWriter::new();
    let mut second = TipWriter::new();
    let a = write_batch(&mut first, &map, &batch);
    let b = write_batch(&mut second, &map, &batch);
    assert_eq!(a, b);
    assert_eq!(first.last_ip(), second.last_ip());
    let mut expected = le(0xA);
    expected.extend(le(0xB));
    expected.extend(le(0xA));
    assert_eq!(a, expected);
}

#[test]
fn pc_map_replaces_mapping() {
    let mut map = PcMap::new();
    assert_eq!(map.get(1), None);
    map.insert_mapping(1, 2);
    map.insert_mapping(1, 3);
    assert_eq!(map.get(1), Some(3));
}

#[test]
fn ptw_writer_is_identity() {
    let mut w = PtwWriter::new();
    assert_eq!(w.calculate_pc(&(), &0xDEAD_BEEF), Some(0xDEAD_BEEF));
}

#[test]
fn writer_idle_decisions() {
    assert_eq!(idle_action(true, 0, true), WriterAction::Finish);
    assert_eq!(idle_action(true, 1, true), WriterAction::Notify);
    assert_eq!(idle_action(true, 0, false), WriterAction::Notify);
    assert_eq!(idle_action(false, 0, true), WriterAction::Notify);
    assert_eq!(idle_action(false, MAX_TASKS, true), WriterAction::Poll);
    assert_eq!(MAX_TASKS, 6 * 4096);
}
