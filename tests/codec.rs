use desk_protocol::codec::{Packet, ValidChecksum};
use desk_protocol::command::{
    kind_of_prefix, response_id, ChangeHeight, Command, CommandId, CommandKind, ControllerState, Handshake, Id, MoveState, ReportHeight,
    ResponseState, SourceChangeHeight, SourceConnect, SourceHandshake,
};
use desk_protocol::error::ProtocolError;

fn packet(body: &[u8], sequence: u16) -> Packet {
    let mut raw = vec![0xFA];
    raw.extend_from_slice(body);
    raw.push((sequence >> 8) as u8);
    raw.push(sequence as u8);
    raw.push(0);
    raw.push(0xFD);
    let mut p = Packet::new(raw).unwrap();
    p.insert_checksum();
    p
}

#[test]
fn report_height_reads_tenths() {
    let p = packet(&[0x03, 0x00, 0x00, 0x64], 1);
    let c = Command::read_from(&p).unwrap();
    match c {
        Command::ReportHeight(h) => {
            assert_eq!(h.tenths, 100);
            assert_eq!(h.tenths as f64 / 10.0, 10.0);
        }
        other => panic!("unexpected {:?}", other),
    }
}

#[test]
fn unknown_change_height_command() {
    let p = packet(&[0x18, 0x09, 0x01], 0);
    assert_eq!(Command::read_from(&p), Err(ProtocolError::UnrecognizedChangeHeightCommand(0x09)));
}

#[test]
fn decode_errors_by_family() {
    assert_eq!(Command::read_from(&packet(&[0x42, 0x00], 0)), Err(ProtocolError::UnrecognizedCommand(0x42)));
    assert_eq!(
        Command::read_from(&packet(&[0x03, 0x05, 0x00, 0x10], 0)),
        Err(ProtocolError::UnrecognizedReportHeightCommand(0x05))
    );
    assert_eq!(
        Command::read_from(&packet(&[0x18, 0x03, 0x07], 0)),
        Err(ProtocolError::UnrecognizedMoveState(0x07))
    );
    assert_eq!(
        Command::read_from(&packet(&[0x17, 0x04, 0x00, 0x02], 0)),
        Err(ProtocolError::UnrecognizedResponseState(0x02))
    );
    assert_eq!(Command::read_from(&packet(&[0x03, 0x00, 0x10], 0)), Err(ProtocolError::TruncatedPacket));
    assert!(matches!(Packet::new(vec![0xFA, 0x01, 0xFD]), Err(ProtocolError::TruncatedPacket)));
}

#[test]
fn checksum_insert_then_validate() {
    let mut p = Packet::new(vec![0xFA, 0x18, 0x03, 0x01, 0x00, 0x07, 0x55, 0xFD]).unwrap();
    assert_eq!(p.validate_checksum(), ValidChecksum::Invalid);
    p.insert_checksum();
    assert_eq!(p.get_checksum(), 0x18 ^ 0x03 ^ 0x01 ^ 0x00 ^ 0x07);
    assert_eq!(p.validate_checksum(), ValidChecksum::Valid);
    assert_eq!(p.get_packet_num(), 7);
    assert_eq!(p.get_data(), vec![0x01]);
    assert_eq!(p.get_command_prefix(), 0x18);
    assert_eq!(p.get_command_id(), 0x03);
}

#[test]
fn checked_read_reports_bad_checksum() {
    let p = Packet::new(vec![0xFA, 0x18, 0x03, 0x01, 0x00, 0x07, 0x55, 0xFD]).unwrap();
    assert_eq!(Command::read_checked(&p), Err(ProtocolError::InvalidChecksum));
}

#[test]
fn every_kind_round_trips() {
    let commands = vec![
        Command::ChangeHeight(SourceChangeHeight::Desk(ChangeHeight::Up(MoveState::Start))),
        Command::ChangeHeight(SourceChangeHeight::Controller {
            height_command: ChangeHeight::Down(MoveState::Stop),
            response_state: ResponseState::Success,
        }),
        Command::ReportHeight(ReportHeight { tenths: 0x1234 }),
        Command::ControllerKeepAlive(ControllerState::Ready),
        Command::Connect(SourceConnect::Controller),
        Command::Connect(SourceConnect::Desk { response_state: ResponseState::Success }),
        Command::Handshake(SourceHandshake::Controller(Handshake::TwentyOne)),
        Command::Handshake(SourceHandshake::Desk { topic: Handshake::SeventyThree, data: 0xBEEF }),
        Command::Identify(Id { command_id: 0x21, identifier: 0x00A1B2C3 }),
    ];
    for (n, c) in commands.iter().enumerate() {
        let p = c.to_packet(n as u16 + 300);
        assert_eq!(p.validate_checksum(), ValidChecksum::Valid);
        assert_eq!(p.get_packet_num(), n as u16 + 300);
        assert_eq!(Command::read_checked(&p), Ok(*c));
    }
}

#[test]
fn encoding_bytes() {
    let mut out = Vec::new();
    Command::ChangeHeight(SourceChangeHeight::Controller {
        height_command: ChangeHeight::Up(MoveState::Start),
        response_state: ResponseState::Success,
    })
    .write_to(&mut out);
    assert_eq!(out, vec![0x17, 0x03, 0x01, 0x00]);
    let p = Command::ReportHeight(ReportHeight { tenths: 100 }).to_packet(2);
    assert_eq!(p.as_bytes(), &vec![0xFA, 0x03, 0x00, 0x00, 0x64, 0x00, 0x02, 0x03 ^ 0x64 ^ 0x02, 0xFD]);
    assert_eq!(Handshake::TwentyTwo.command_id(), 0x21);
    assert_eq!(Handshake::from_id(0x32), Ok(Handshake::TwentyOne));
}

#[test]
fn replies_are_one_past_the_event() {
    assert_eq!(response_id(0x17), Some(0x18));
    assert_eq!(response_id(0x11), Some(0x12));
    assert_eq!(response_id(0x15), Some(0x16));
    assert_eq!(response_id(0x03), None);
    assert_eq!(response_id(0x01), None);
}

#[test]
fn prefixes_name_their_family() {
    assert_eq!(kind_of_prefix(0x17), Some(CommandKind::ChangeHeight));
    assert_eq!(kind_of_prefix(0x18), Some(CommandKind::ChangeHeight));
    assert_eq!(kind_of_prefix(0x03), Some(CommandKind::ReportHeight));
    assert_eq!(kind_of_prefix(0x01), Some(CommandKind::ControllerKeepAlive));
    assert_eq!(kind_of_prefix(0x12), Some(CommandKind::Connect));
    assert_eq!(kind_of_prefix(0x16), Some(CommandKind::Handshake));
    assert_eq!(kind_of_prefix(0x13), Some(CommandKind::Identify));
    assert_eq!(kind_of_prefix(0x09), None);
}
