use desk_protocol::capture::{
    build_segments, decode_row, merge_packets, parse_frames, parse_packets, Device, Frame,
    FrameValue, Packet, Segment, Timestamp,
};
use desk_protocol::error::ProtocolError;
use desk_protocol::text::{parse_byte, parse_time};

fn byte_frame(t: i64, b: u8) -> Frame {
    Frame { time: Timestamp { picos: t }, value: FrameValue::Value(b) }
}

fn row(fields: &[&str]) -> Vec<String> {
    fields.iter().map(|f| f.to_string()).collect()
}

#[test]
fn controller_rows_make_one_packet() {
    let text = "Time [s],Value,Parity Error,Framing Error\n0.0,0xFA,,\n0.1,0x03,,\n0.2,0x01,,\n0.3,0xFD,,\n";
    let frames = parse_frames(text).unwrap();
    assert_eq!(frames.len(), 4);
    let packets = parse_packets(&frames, Device::Controller);
    assert_eq!(packets, vec![Packet { source: Device::Controller, start: 1, end: 3 }]);
    let payload: Vec<u8> = frames[1..3]
        .iter()
        .map(|f| match f.value {
            FrameValue::Value(b) => b,
            _ => panic!("error frame in payload"),
        })
        .collect();
    assert_eq!(payload, vec![0x03, 0x01]);
}

#[test]
fn bad_byte_field_is_malformed() {
    let r = decode_row(&row(&["0.5", "bad", "", ""]));
    assert!(matches!(r, Err(ProtocolError::MalformedRow)));
}

#[test]
fn bad_time_field_is_malformed() {
    let r = decode_row(&row(&["zero", "0x01", "", ""]));
    assert!(matches!(r, Err(ProtocolError::MalformedRow)));
    let text = "Time,Value,Parity,Framing\n0.0,0xFA,,\n1.2.3,0x01,,\n";
    assert!(matches!(parse_frames(text), Err(ProtocolError::MalformedRow)));
}

#[test]
fn short_row_is_malformed() {
    assert!(matches!(decode_row(&row(&["0.5"])), Err(ProtocolError::MalformedRow)));
}

#[test]
fn error_columns_take_precedence() {
    let parity = decode_row(&row(&["1.5", "0x10", "parity", "framing"])).unwrap();
    assert_eq!(parity.time, Timestamp { picos: 1_500_000_000_000 });
    assert!(matches!(parity.value, FrameValue::ParityError(ref t) if t == "parity"));
    let framing = decode_row(&row(&["2", "0x10", "", "framing"])).unwrap();
    assert!(matches!(framing.value, FrameValue::FramingError(ref t) if t == "framing"));
    let plain = decode_row(&row(&["2", "0x10"])).unwrap();
    assert!(matches!(plain.value, FrameValue::Value(0x10)));
}

#[test]
fn times_parse_to_picoseconds() {
    assert_eq!(parse_time("0.1"), Some(100_000_000_000));
    assert_eq!(parse_time("-0.000000000001"), Some(-1));
    assert_eq!(parse_time("3"), Some(3_000_000_000_000));
    assert_eq!(parse_time(".5"), Some(500_000_000_000));
    assert_eq!(parse_time("0.0000000000019"), Some(1));
    assert_eq!(parse_time(""), None);
    assert_eq!(parse_time("."), None);
    assert_eq!(parse_time("1e3"), None);
    assert_eq!(parse_time("10000000"), None);
}

#[test]
fn bytes_parse_from_hex() {
    assert_eq!(parse_byte("0xFA"), Some(0xFA));
    assert_eq!(parse_byte("0x0fd"), Some(0xFD));
    assert_eq!(parse_byte("0x100"), None);
    assert_eq!(parse_byte("FA"), None);
    assert_eq!(parse_byte("0x"), None);
    assert_eq!(parse_byte("0xG1"), None);
}

#[test]
fn assembler_drops_unmatched_sentinels() {
    let frames = vec![
        byte_frame(0, 0xFD),
        byte_frame(1, 0xFA),
        byte_frame(2, 0x05),
        byte_frame(3, 0xFA),
        byte_frame(4, 0x06),
        Frame { time: Timestamp { picos: 5 }, value: FrameValue::ParityError("p".to_string()) },
        byte_frame(6, 0xFD),
        byte_frame(7, 0xFA),
        byte_frame(8, 0x07),
    ];
    let packets = parse_packets(&frames, Device::Desk);
    assert_eq!(packets, vec![Packet { source: Device::Desk, start: 4, end: 6 }]);
}

#[test]
fn segments_group_runs() {
    let c = |start| Packet { source: Device::Controller, start, end: start + 1 };
    let d = |start| Packet { source: Device::Desk, start, end: start + 1 };
    let all = vec![c(0), c(1), d(0), c(2), d(1), d(2)];
    let segments = build_segments(&all);
    assert_eq!(
        segments,
        vec![
            Segment { source: Device::Controller, start: 0, end: 2 },
            Segment { source: Device::Desk, start: 2, end: 3 },
            Segment { source: Device::Controller, start: 3, end: 4 },
            Segment { source: Device::Desk, start: 4, end: 6 },
        ]
    );
    let rebuilt: Vec<Packet> =
        segments.iter().flat_map(|s| all[s.start..s.end].iter().copied()).collect();
    assert_eq!(rebuilt, all);
    for w in segments.windows(2) {
        assert_ne!(w[0].source, w[1].source);
    }
    assert!(build_segments(&Vec::new()).is_empty());
}

#[test]
fn merge_orders_by_first_frame() {
    let cf = vec![byte_frame(10, 1), byte_frame(30, 2), byte_frame(50, 3)];
    let df = vec![byte_frame(20, 1), byte_frame(30, 2), byte_frame(60, 3)];
    let cp: Vec<Packet> =
        (0..3).map(|s| Packet { source: Device::Controller, start: s, end: s + 1 }).collect();
    let dp: Vec<Packet> =
        (0..3).map(|s| Packet { source: Device::Desk, start: s, end: s + 1 }).collect();
    let all = merge_packets(&cf, &cp, &df, &dp).unwrap();
    assert_eq!(all, vec![cp[0], dp[0], cp[1], dp[1], cp[2], dp[2]]);
}

#[test]
fn merge_rejects_empty_payload() {
    let cf = vec![byte_frame(10, 1)];
    let cp = vec![Packet { source: Device::Controller, start: 0, end: 0 }];
    let r = merge_packets(&cf, &cp, &Vec::new(), &Vec::new());
    assert_eq!(r, Err(ProtocolError::TruncatedPacket));
}

#[test]
fn captured_packet_decodes() {
    let bytes = [0xFA, 0x03, 0x00, 0x00, 0x64, 0x00, 0x01, 0x03 ^ 0x64 ^ 0x01, 0xFD];
    let frames: Vec<Frame> =
        bytes.iter().enumerate().map(|(t, b)| byte_frame(t as i64, *b)).collect();
    let packets = parse_packets(&frames, Device::Desk);
    assert_eq!(packets.len(), 1);
    let raw = packets[0].wire_bytes(&frames).unwrap();
    assert_eq!(raw, bytes.to_vec());
    let p = desk_protocol::codec::Packet::new(raw).unwrap();
    assert_eq!(
        desk_protocol::command::Command::read_checked(&p),
        Ok(desk_protocol::command::Command::ReportHeight(desk_protocol::command::ReportHeight {
            tenths: 100
        }))
    );
    let mut with_error = frames.clone();
    with_error[3] = Frame { time: Timestamp { picos: 3 }, value: FrameValue::FramingError("f".to_string()) };
    assert_eq!(packets[0].wire_bytes(&with_error), None);
}
