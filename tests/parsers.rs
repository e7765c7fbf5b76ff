use scribe::packet::{parse_packets, Compression, Kind, PacketParser, PtPacket, PtwParser, TipParser};

#[test]
fn ptw_parser_keeps_payloads_in_order() {
    let packets = vec![
        PtPacket::Other,
        PtPacket::Ptw(0x11),
        PtPacket::Tip(Compression::Full, 0x4000),
        PtPacket::Ptw(0x22),
        PtPacket::Fup(0x5),
        PtPacket::Ptw(0x33),
    ];
    assert_eq!(parse_packets::<PtwParser>(&packets), vec![0x11, 0x22, 0x33]);
}

#[test]
fn ptw_parser_process_and_finish() {
    let mut p = PtwParser::new();
    p.process(PtPacket::Ptw(9));
    p.process(PtPacket::Other);
    assert_eq!(p.finish(), vec![9]);
}

#[test]
fn tip_parser_maps_compressions() {
    let packets = vec![
        PtPacket::Tip(Compression::Suppressed, 0x1),
        PtPacket::Tip(Compression::Update16, 0x2),
        PtPacket::Tip(Compression::Update32, 0x3),
        PtPacket::Tip(Compression::Sext48, 0x4),
        PtPacket::Tip(Compression::Update48, 0x5),
        PtPacket::Tip(Compression::Full, 0x6),
        PtPacket::Fup(0x7),
        PtPacket::Ptw(0x8),
        PtPacket::Other,
    ];
    assert_eq!(
        parse_packets::<TipParser>(&packets),
        vec![
            (Kind::Update16, 0x2),
            (Kind::Update32, 0x3),
            (Kind::SignExtend48, 0x4),
            (Kind::Update48, 0x5),
            (Kind::Update64, 0x6),
            (Kind::Update64NoEmit, 0x7),
        ]
    );
}

#[test]
fn parsers_on_empty_region() {
    assert!(parse_packets::<PtwParser>(&Vec::new()).is_empty());
    assert!(parse_packets::<TipParser>(&Vec::new()).is_empty());
}
