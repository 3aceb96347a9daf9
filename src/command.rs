use vstd::prelude::*;

use crate::codec::{checksum_of, data_of, xor_all, Packet, ValidChecksum, MIN_PACKET_LEN};
use crate::error::ProtocolError;

verus! {

/// Start-of-packet sentinel.
pub const START: u8 = 0xFA;

/// End-of-packet sentinel.
pub const END: u8 = 0xFD;

/// Prefix of a change-height command sent by the controller.
pub const CONTROLLER_HEIGHT_PREFIX: u8 = 0x17;

/// Prefix of a change-height command sent by the desk.
pub const DESK_HEIGHT_PREFIX: u8 = 0x18;

/// Prefix of a height report from the desk.
pub const DESK_REPORT_PREFIX: u8 = 0x03;

/// The one known report-height sub-command.
pub const REPORT_HEIGHT_COMMAND_ID: u8 = 0x00;

/// Prefix of the controller's keep-alive.
pub const KEEP_ALIVE_PREFIX: u8 = 0x01;

/// Id byte of the controller state carried by a keep-alive.
pub const CONTROLLER_STATE_ID: u8 = 0xA0;

/// Prefix of the controller's connect request.
pub const CONNECT_PREFIX: u8 = 0x11;

/// Prefix of the desk's connect reply.
pub const CONNECT_REPLY_PREFIX: u8 = 0x12;

/// Command id carried by both connect packets.
pub const CONNECT_COMMAND_ID: u8 = 0x11;

/// Prefix of an identify command.
pub const IDENTIFY_PREFIX: u8 = 0x13;

/// Prefix of the controller's handshake request.
pub const HANDSHAKE_PREFIX: u8 = 0x15;

/// Prefix of the desk's handshake reply.
pub const HANDSHAKE_REPLY_PREFIX: u8 = 0x16;

/// Direction byte for moving up.
pub const HEIGHT_UP: u8 = 0x03;

/// Direction byte for moving down.
pub const HEIGHT_DOWN: u8 = 0x04;

/// High byte of a big-endian 16-bit value.
pub open spec fn hi(v: u16) -> u8 {
    (v / 256) as u8
}

/// Low byte of a big-endian 16-bit value.
pub open spec fn lo(v: u16) -> u8 {
    (v % 256) as u8
}

/// Two big-endian bytes read as one value.
pub open spec fn be16(a: u8, b: u8) -> u16 {
    (a as int * 256 + b as int) as u16
}

/// The four big-endian bytes of a 32-bit value.
pub open spec fn be_bytes32(v: u32) -> Seq<u8> {
    seq![
        (v / 0x1000000) as u8,
        ((v / 0x10000) % 256) as u8,
        ((v / 256) % 256) as u8,
        (v % 256) as u8,
    ]
}

/// Four big-endian bytes read as one value.
pub open spec fn be32(d: Seq<u8>) -> u32 {
    (d[0] as int * 0x1000000 + d[1] as int * 0x10000 + d[2] as int * 256 + d[3] as int) as u32
}

/// Whether the motor starts or stops.
#[derive(Debug, Clone, Copy, PartialEq, Eq, Structural)]
pub enum MoveState {
    Stop,
    Start,
}

impl MoveState {
    pub open spec fn spec_byte(self) -> u8 {
        match self {
            MoveState::Stop => 0,
            MoveState::Start => 1,
        }
    }

    pub open spec fn spec_from_byte(b: u8) -> Result<MoveState, ProtocolError> {
        if b == 0 {
            Ok(MoveState::Stop)
        } else if b == 1 {
            Ok(MoveState::Start)
        } else {
            Err(ProtocolError::UnrecognizedMoveState(b))
        }
    }

    /// The motion state stored at data byte `i`.
    pub open spec fn spec_read(d: Seq<u8>, i: int) -> Result<MoveState, ProtocolError> {
        if i < d.len() {
            MoveState::spec_from_byte(d[i])
        } else {
            Err(ProtocolError::TruncatedPacket)
        }
    }

    /// The wire byte: 0 to stop, 1 to start.
    pub fn byte(&self) -> (r: u8)
        ensures
            r == self.spec_byte(),
    {
        match self {
            MoveState::Stop => 0,
            MoveState::Start => 1,
        }
    }

    /// Reads the motion state at data byte `index`.
    pub fn read_from(packet: &Packet, index: usize) -> (r: Result<MoveState, ProtocolError>)
        requires
            packet@.len() >= MIN_PACKET_LEN,
        ensures
            r == MoveState::spec_read(data_of(packet@), index as int),
    {
        match packet.get_data_byte(index) {
            None => Err(ProtocolError::TruncatedPacket),
            Some(0) => Ok(MoveState::Stop),
            Some(1) => Ok(MoveState::Start),
            Some(b) => Err(ProtocolError::UnrecognizedMoveState(b)),
        }
    }
}

/// The answer a device gives to a command; only success is known.
#[derive(Debug, Clone, Copy, PartialEq, Eq, Structural)]
pub enum ResponseState {
    Success,
}

impl ResponseState {
    pub open spec fn spec_byte(self) -> u8 {
        0
    }

    /// The response state stored at data byte `i`.
    pub open spec fn spec_read(d: Seq<u8>, i: int) -> Result<ResponseState, ProtocolError> {
        if i >= d.len() {
            Err(ProtocolError::TruncatedPacket)
        } else if d[i] == 0 {
            Ok(ResponseState::Success)
        } else {
            Err(ProtocolError::UnrecognizedResponseState(d[i]))
        }
    }

    /// The wire byte: 0 for success.
    pub fn byte(&self) -> (r: u8)
        ensures
            r == self.spec_byte(),
    {
        0
    }

    /// Reads the response state at data byte `index`.
    pub fn read_from(packet: &Packet, index: usize) -> (r: Result<ResponseState, ProtocolError>)
        requires
            packet@.len() >= MIN_PACKET_LEN,
        ensures
            r == ResponseState::spec_read(data_of(packet@), index as int),
    {
        match packet.get_data_byte(index) {
            None => Err(ProtocolError::TruncatedPacket),
            Some(0) => Ok(ResponseState::Success),
            Some(b) => Err(ProtocolError::UnrecognizedResponseState(b)),
        }
    }
}

/// The id byte that a command or one of its parts puts on the wire.
pub trait CommandId {
    spec fn spec_command_id(&self) -> u8;

    fn command_id(&self) -> (r: u8)
        ensures
            r == self.spec_command_id();
}

/// A request to move the desk up or down.
#[derive(Debug, Clone, Copy, PartialEq, Eq, Structural)]
pub enum ChangeHeight {
    Up(MoveState),
    Down(MoveState),
}

impl CommandId for ChangeHeight {
    open spec fn spec_command_id(&self) -> u8 {
        match self {
            ChangeHeight::Up(_) => HEIGHT_UP,
            ChangeHeight::Down(_) => HEIGHT_DOWN,
        }
    }

    fn command_id(&self) -> (r: u8) {
        match self {
            ChangeHeight::Up(_) => HEIGHT_UP,
            ChangeHeight::Down(_) => HEIGHT_DOWN,
        }
    }
}

impl ChangeHeight {
    pub open spec fn state(self) -> MoveState {
        match self {
            ChangeHeight::Up(s) => s,
            ChangeHeight::Down(s) => s,
        }
    }

    /// Direction byte, then motion byte.
    pub open spec fn spec_encoding(self) -> Seq<u8> {
        seq![self.spec_command_id(), self.state().spec_byte()]
    }

    /// Direction from the id byte, motion from the first data byte.
    pub open spec fn spec_read(id: u8, d: Seq<u8>) -> Result<ChangeHeight, ProtocolError> {
        if id == HEIGHT_UP {
            match MoveState::spec_read(d, 0) {
                Ok(s) => Ok(ChangeHeight::Up(s)),
                Err(e) => Err(e),
            }
        } else if id == HEIGHT_DOWN {
            match MoveState::spec_read(d, 0) {
                Ok(s) => Ok(ChangeHeight::Down(s)),
                Err(e) => Err(e),
            }
        } else {
            Err(ProtocolError::UnrecognizedChangeHeightCommand(id))
        }
    }

    /// Appends the direction byte and the motion byte.
    pub fn write_to(&self, out: &mut Vec<u8>)
        ensures
            final(out)@ == old(out)@ + self.spec_encoding(),
    {
        let state = match self {
            ChangeHeight::Up(state) => {
                out.push(HEIGHT_UP);
                state
            },
            ChangeHeight::Down(state) => {
                out.push(HEIGHT_DOWN);
                state
            },
        };
        out.push(state.byte());
        assert(out@ =~= old(out)@ + self.spec_encoding());
    }

    /// Reads the direction from the command id and the motion state from
    /// the first data byte.
    pub fn read_from(packet: &Packet) -> (r: Result<ChangeHeight, ProtocolError>)
        requires
            packet@.len() >= MIN_PACKET_LEN,
        ensures
            r == ChangeHeight::spec_read(packet@[2], data_of(packet@)),
    {
        let id = packet.get_command_id();
        if id == HEIGHT_UP {
            match MoveState::read_from(packet, 0) {
                Ok(s) => Ok(ChangeHeight::Up(s)),
                Err(e) => Err(e),
            }
        } else if id == HEIGHT_DOWN {
            match MoveState::read_from(packet, 0) {
                Ok(s) => Ok(ChangeHeight::Down(s)),
                Err(e) => Err(e),
            }
        } else {
            Err(ProtocolError::UnrecognizedChangeHeightCommand(id))
        }
    }
}

/// A change-height command, whose layout depends on who sends it.
#[derive(Debug, Clone, Copy, PartialEq, Eq, Structural)]
pub enum SourceChangeHeight {
    /// Sent by the desk: prefix, direction, motion.
    Desk(ChangeHeight),
    /// Sent by the controller: prefix, direction, motion, response state.
    Controller { height_command: ChangeHeight, response_state: ResponseState },
}

impl SourceChangeHeight {
    pub open spec fn spec_encoding(self) -> Seq<u8> {
        match self {
            SourceChangeHeight::Desk(h) => seq![DESK_HEIGHT_PREFIX] + h.spec_encoding(),
            SourceChangeHeight::Controller { height_command, response_state } => seq![
                CONTROLLER_HEIGHT_PREFIX,
            ] + height_command.spec_encoding() + seq![response_state.spec_byte()],
        }
    }

    /// Appends prefix and fields.
    pub fn write_to(&self, out: &mut Vec<u8>)
        ensures
            final(out)@ == old(out)@ + self.spec_encoding(),
    {
        match self {
            SourceChangeHeight::Desk(height_command) => {
                out.push(DESK_HEIGHT_PREFIX);
                height_command.write_to(out);
            },
            SourceChangeHeight::Controller { height_command, response_state } => {
                out.push(CONTROLLER_HEIGHT_PREFIX);
                height_command.write_to(out);
                out.push(response_state.byte());
            },
        }
        assert(out@ =~= old(out)@ + self.spec_encoding());
    }
}

/// A height report, in tenths of a unit.
#[derive(Debug, Clone, Copy, PartialEq, Eq, Structural)]
pub struct ReportHeight {
    pub tenths: u16,
}

impl CommandId for ReportHeight {
    open spec fn spec_command_id(&self) -> u8 {
        REPORT_HEIGHT_COMMAND_ID
    }

    fn command_id(&self) -> (r: u8) {
        REPORT_HEIGHT_COMMAND_ID
    }
}

impl ReportHeight {
    /// Prefix, sub-command, then the height as a big-endian 16-bit value.
    pub open spec fn spec_encoding(self) -> Seq<u8> {
        seq![DESK_REPORT_PREFIX, REPORT_HEIGHT_COMMAND_ID, hi(self.tenths), lo(self.tenths)]
    }

    pub open spec fn spec_read(id: u8, d: Seq<u8>) -> Result<ReportHeight, ProtocolError> {
        if id != REPORT_HEIGHT_COMMAND_ID {
            Err(ProtocolError::UnrecognizedReportHeightCommand(id))
        } else if d.len() < 2 {
            Err(ProtocolError::TruncatedPacket)
        } else {
            Ok(ReportHeight { tenths: be16(d[0], d[1]) })
        }
    }

    /// Appends prefix, sub-command and height.
    pub fn write_to(&self, out: &mut Vec<u8>)
        ensures
            final(out)@ == old(out)@ + self.spec_encoding(),
    {
        out.push(DESK_REPORT_PREFIX);
        out.push(REPORT_HEIGHT_COMMAND_ID);
        out.push((self.tenths / 256) as u8);
        out.push((self.tenths % 256) as u8);
        assert(out@ =~= old(out)@ + self.spec_encoding());
    }

    /// Checks the sub-command and reads the height from the first two data
    /// bytes.
    pub fn read_from(packet: &Packet) -> (r: Result<ReportHeight, ProtocolError>)
        requires
            packet@.len() >= MIN_PACKET_LEN,
        ensures
            r == ReportHeight::spec_read(packet@[2], data_of(packet@)),
    {
        let id = packet.get_command_id();
        if id != REPORT_HEIGHT_COMMAND_ID {
            return Err(ProtocolError::UnrecognizedReportHeightCommand(id));
        }
        match (packet.get_data_byte(0), packet.get_data_byte(1)) {
            (Some(a), Some(b)) => Ok(ReportHeight { tenths: (a as u16) * 256 + b as u16 }),
            _ => Err(ProtocolError::TruncatedPacket),
        }
    }
}

/// The state a controller announces in its keep-alive.
#[derive(Debug, Clone, Copy, PartialEq, Eq, Structural)]
pub enum ControllerState {
    /// The state word `0xA004`.
    Ready,
}

impl CommandId for ControllerState {
    open spec fn spec_command_id(&self) -> u8 {
        CONTROLLER_STATE_ID
    }

    fn command_id(&self) -> (r: u8) {
        CONTROLLER_STATE_ID
    }
}

impl ControllerState {
    /// Prefix, state id, then the state word `0xA004`.
    pub open spec fn spec_encoding(self) -> Seq<u8> {
        seq![KEEP_ALIVE_PREFIX, CONTROLLER_STATE_ID, 0xA0u8, 0x04u8]
    }

    pub open spec fn spec_read(id: u8, d: Seq<u8>) -> Result<ControllerState, ProtocolError> {
        if id != CONTROLLER_STATE_ID {
            Err(ProtocolError::UnrecognizedCommand(id))
        } else if d.len() < 2 {
            Err(ProtocolError::TruncatedPacket)
        } else if d[0] != 0xA0 {
            Err(ProtocolError::UnrecognizedResponseState(d[0]))
        } else if d[1] != 0x04 {
            Err(ProtocolError::UnrecognizedResponseState(d[1]))
        } else {
            Ok(ControllerState::Ready)
        }
    }
}

/// The connect exchange: the controller asks, the desk answers.
#[derive(Debug, Clone, Copy, PartialEq, Eq, Structural)]
pub enum SourceConnect {
    /// The request.
    Controller,
    /// The reply.
    Desk { response_state: ResponseState },
}

impl CommandId for SourceConnect {
    open spec fn spec_command_id(&self) -> u8 {
        CONNECT_COMMAND_ID
    }

    fn command_id(&self) -> (r: u8) {
        CONNECT_COMMAND_ID
    }
}

impl SourceConnect {
    pub open spec fn spec_encoding(self) -> Seq<u8> {
        match self {
            SourceConnect::Controller => seq![CONNECT_PREFIX, CONNECT_COMMAND_ID],
            SourceConnect::Desk { response_state } => seq![
                CONNECT_REPLY_PREFIX,
                CONNECT_COMMAND_ID,
                response_state.spec_byte(),
            ],
        }
    }

    /// Appends prefix, command id and, for the reply, the response state.
    pub fn write_to(&self, out: &mut Vec<u8>)
        ensures
            final(out)@ == old(out)@ + self.spec_encoding(),
    {
        match self {
            SourceConnect::Controller => {
                out.push(CONNECT_PREFIX);
                out.push(CONNECT_COMMAND_ID);
            },
            SourceConnect::Desk { response_state } => {
                out.push(CONNECT_REPLY_PREFIX);
                out.push(CONNECT_COMMAND_ID);
                out.push(response_state.byte());
            },
        }
        assert(out@ =~= old(out)@ + self.spec_encoding());
    }
}

/// The topics of the handshake, by their sub-id byte.
#[derive(Debug, Clone, Copy, PartialEq, Eq, Structural)]
pub enum Handshake {
    Thirteen,
    Fourteen,
    Fifteen,
    TwentyOne,
    TwentyTwo,
    TwentyThree,
    SeventyTwo,
    SeventyThree,
}

impl CommandId for Handshake {
    open spec fn spec_command_id(&self) -> u8 {
        match self {
            Handshake::Thirteen => 0x13,
            Handshake::Fourteen => 0x14,
            Handshake::Fifteen => 0x15,
            Handshake::TwentyOne => 0x32,
            Handshake::TwentyTwo => 0x21,
            Handshake::TwentyThree => 0x23,
            Handshake::SeventyTwo => 0x72,
            Handshake::SeventyThree => 0x73,
        }
    }

    fn command_id(&self) -> (r: u8) {
        match self {
            Handshake::Thirteen => 0x13,
            Handshake::Fourteen => 0x14,
            Handshake::Fifteen => 0x15,
            Handshake::TwentyOne => 0x32,
            Handshake::TwentyTwo => 0x21,
            Handshake::TwentyThree => 0x23,
            Handshake::SeventyTwo => 0x72,
            Handshake::SeventyThree => 0x73,
        }
    }
}

impl Handshake {
    pub open spec fn spec_from_id(id: u8) -> Result<Handshake, ProtocolError> {
        if id == 0x13 {
            Ok(Handshake::Thirteen)
        } else if id == 0x14 {
            Ok(Handshake::Fourteen)
        } else if id == 0x15 {
            Ok(Handshake::Fifteen)
        } else if id == 0x32 {
            Ok(Handshake::TwentyOne)
        } else if id == 0x21 {
            Ok(Handshake::TwentyTwo)
        } else if id == 0x23 {
            Ok(Handshake::TwentyThree)
        } else if id == 0x72 {
            Ok(Handshake::SeventyTwo)
        } else if id == 0x73 {
            Ok(Handshake::SeventyThree)
        } else {
            Err(ProtocolError::UnrecognizedCommand(id))
        }
    }

    /// The topic with sub-id `id`.
    pub fn from_id(id: u8) -> (r: Result<Handshake, ProtocolError>)
        ensures
            r == Handshake::spec_from_id(id),
    {
        match id {
            0x13 => Ok(Handshake::Thirteen),
            0x14 => Ok(Handshake::Fourteen),
            0x15 => Ok(Handshake::Fifteen),
            0x32 => Ok(Handshake::TwentyOne),
            0x21 => Ok(Handshake::TwentyTwo),
            0x23 => Ok(Handshake::TwentyThree),
            0x72 => Ok(Handshake::SeventyTwo),
            0x73 => Ok(Handshake::SeventyThree),
            _ => Err(ProtocolError::UnrecognizedCommand(id)),
        }
    }
}

/// The handshake exchange: the controller asks about a topic, the desk
/// answers with the topic and two bytes of data.
#[derive(Debug, Clone, Copy, PartialEq, Eq, Structural)]
pub enum SourceHandshake {
    Controller(Handshake),
    Desk { topic: Handshake, data: u16 },
}

impl SourceHandshake {
    pub open spec fn spec_encoding(self) -> Seq<u8> {
        match self {
            SourceHandshake::Controller(t) => seq![HANDSHAKE_PREFIX, t.spec_command_id()],
            SourceHandshake::Desk { topic, data } => seq![
                HANDSHAKE_REPLY_PREFIX,
                topic.spec_command_id(),
                hi(data),
                lo(data),
            ],
        }
    }
}

/// An identify command: an id byte and a numeric identifier.
#[derive(Debug, Clone, Copy, PartialEq, Eq, Structural)]
pub struct Id {
    pub command_id: u8,
    pub identifier: u32,
}

impl CommandId for Id {
    open spec fn spec_command_id(&self) -> u8 {
        self.command_id
    }

    fn command_id(&self) -> (r: u8) {
        self.command_id
    }
}

impl Id {
    /// Prefix, id byte, then the identifier in four big-endian bytes.
    pub open spec fn spec_encoding(self) -> Seq<u8> {
        seq![IDENTIFY_PREFIX, self.command_id] + be_bytes32(self.identifier)
    }
}

/// Every command the protocol knows.
#[derive(Debug, Clone, Copy, PartialEq, Eq, Structural)]
pub enum Command {
    ChangeHeight(SourceChangeHeight),
    ReportHeight(ReportHeight),
    ControllerKeepAlive(ControllerState),
    Connect(SourceConnect),
    Handshake(SourceHandshake),
    Identify(Id),
}

/// The bytes of a whole packet carrying `body`: start sentinel, body,
/// sequence number, checksum, end sentinel.
pub open spec fn framed(body: Seq<u8>, sequence: u16) -> Seq<u8> {
    let covered = body + seq![hi(sequence), lo(sequence)];
    seq![START] + covered + seq![xor_all(covered), END]
}

/// The command that a packet's bytes hold, or why there is none.
pub open spec fn decode(raw: Seq<u8>) -> Result<Command, ProtocolError> {
    let prefix = raw[1];
    let id = raw[2];
    let d = data_of(raw);
    if prefix == DESK_HEIGHT_PREFIX {
        match ChangeHeight::spec_read(id, d) {
            Ok(h) => Ok(Command::ChangeHeight(SourceChangeHeight::Desk(h))),
            Err(e) => Err(e),
        }
    } else if prefix == CONTROLLER_HEIGHT_PREFIX {
        match ChangeHeight::spec_read(id, d) {
            Ok(h) => match ResponseState::spec_read(d, 1) {
                Ok(s) => Ok(
                    Command::ChangeHeight(
                        SourceChangeHeight::Controller { height_command: h, response_state: s },
                    ),
                ),
                Err(e) => Err(e),
            },
            Err(e) => Err(e),
        }
    } else if prefix == DESK_REPORT_PREFIX {
        match ReportHeight::spec_read(id, d) {
            Ok(h) => Ok(Command::ReportHeight(h)),
            Err(e) => Err(e),
        }
    } else if prefix == KEEP_ALIVE_PREFIX {
        match ControllerState::spec_read(id, d) {
            Ok(s) => Ok(Command::ControllerKeepAlive(s)),
            Err(e) => Err(e),
        }
    } else if prefix == CONNECT_PREFIX || prefix == CONNECT_REPLY_PREFIX {
        if id != CONNECT_COMMAND_ID {
            Err(ProtocolError::UnrecognizedCommand(id))
        } else if prefix == CONNECT_PREFIX {
            Ok(Command::Connect(SourceConnect::Controller))
        } else {
            match ResponseState::spec_read(d, 0) {
                Ok(s) => Ok(Command::Connect(SourceConnect::Desk { response_state: s })),
                Err(e) => Err(e),
            }
        }
    } else if prefix == HANDSHAKE_PREFIX || prefix == HANDSHAKE_REPLY_PREFIX {
        match Handshake::spec_from_id(id) {
            Ok(t) => if prefix == HANDSHAKE_PREFIX {
                Ok(Command::Handshake(SourceHandshake::Controller(t)))
            } else if d.len() < 2 {
                Err(ProtocolError::TruncatedPacket)
            } else {
                Ok(Command::Handshake(SourceHandshake::Desk { topic: t, data: be16(d[0], d[1]) }))
            },
            Err(e) => Err(e),
        }
    } else if prefix == IDENTIFY_PREFIX {
        if d.len() < 4 {
            Err(ProtocolError::TruncatedPacket)
        } else {
            Ok(Command::Identify(Id { command_id: id, identifier: be32(d) }))
        }
    } else {
        Err(ProtocolError::UnrecognizedCommand(prefix))
    }
}

impl Command {
    /// The bytes between the start sentinel and the sequence number.
    pub open spec fn spec_encoding(self) -> Seq<u8> {
        match self {
            Command::ChangeHeight(c) => c.spec_encoding(),
            Command::ReportHeight(c) => c.spec_encoding(),
            Command::ControllerKeepAlive(c) => c.spec_encoding(),
            Command::Connect(c) => c.spec_encoding(),
            Command::Handshake(c) => c.spec_encoding(),
            Command::Identify(c) => c.spec_encoding(),
        }
    }

    /// Appends prefix, command id and data.
    pub fn write_to(&self, out: &mut Vec<u8>)
        ensures
            final(out)@ == old(out)@ + self.spec_encoding(),
    {
        match self {
            Command::ChangeHeight(c) => c.write_to(out),
            Command::ReportHeight(c) => c.write_to(out),
            Command::ControllerKeepAlive(c) => {
                out.push(KEEP_ALIVE_PREFIX);
                out.push(c.command_id());
                out.push(0xA0);
                out.push(0x04);
            },
            Command::Connect(c) => c.write_to(out),
            Command::Handshake(c) => {
                match c {
                    SourceHandshake::Controller(t) => {
                        out.push(HANDSHAKE_PREFIX);
                        out.push(t.command_id());
                    },
                    SourceHandshake::Desk { topic, data } => {
                        out.push(HANDSHAKE_REPLY_PREFIX);
                        out.push(topic.command_id());
                        out.push((*data / 256) as u8);
                        out.push((*data % 256) as u8);
                    },
                }
            },
            Command::Identify(c) => {
                out.push(IDENTIFY_PREFIX);
                out.push(c.command_id);
                out.push((c.identifier / 0x1000000) as u8);
                out.push(((c.identifier / 0x10000) % 256) as u8);
                out.push(((c.identifier / 256) % 256) as u8);
                out.push((c.identifier % 256) as u8);
            },
        }
        assert(out@ =~= old(out)@ + self.spec_encoding());
    }

    /// The whole packet for this command with the given sequence number,
    /// checksum filled in.
    pub fn to_packet(&self, sequence: u16) -> (r: Packet)
        ensures
            r@ == framed(self.spec_encoding(), sequence),
    {
        let mut raw: Vec<u8> = Vec::new();
        raw.push(START);
        self.write_to(&mut raw);
        raw.push((sequence / 256) as u8);
        raw.push((sequence % 256) as u8);
        raw.push(0);
        raw.push(END);
        let ghost before = raw@;
        assert(self.spec_encoding().len() >= 2);
        let mut packet = Packet::from_vec(raw);
        packet.insert_checksum();
        proof {
            let covered = self.spec_encoding() + seq![hi(sequence), lo(sequence)];
            assert(before.subrange(1, before.len() - 2) =~= covered);
            assert(packet@ =~= framed(self.spec_encoding(), sequence));
        }
        packet
    }

    /// Decodes a packet: the prefix picks the command, the command id and
    /// the data fill it in. The checksum is not looked at.
    pub fn read_from(packet: &Packet) -> (r: Result<Command, ProtocolError>)
        requires
            packet@.len() >= MIN_PACKET_LEN,
        ensures
            r == decode(packet@),
    {
        let prefix = packet.get_command_prefix();
        let id = packet.get_command_id();
        if prefix == DESK_HEIGHT_PREFIX {
            match ChangeHeight::read_from(packet) {
                Ok(h) => Ok(Command::ChangeHeight(SourceChangeHeight::Desk(h))),
                Err(e) => Err(e),
            }
        } else if prefix == CONTROLLER_HEIGHT_PREFIX {
            match ChangeHeight::read_from(packet) {
                Ok(h) => match ResponseState::read_from(packet, 1) {
                    Ok(s) => Ok(
                        Command::ChangeHeight(
                            SourceChangeHeight::Controller { height_command: h, response_state: s },
                        ),
                    ),
                    Err(e) => Err(e),
                },
                Err(e) => Err(e),
            }
        } else if prefix == DESK_REPORT_PREFIX {
            match ReportHeight::read_from(packet) {
                Ok(h) => Ok(Command::ReportHeight(h)),
                Err(e) => Err(e),
            }
        } else if prefix == KEEP_ALIVE_PREFIX {
            if id != CONTROLLER_STATE_ID {
                return Err(ProtocolError::UnrecognizedCommand(id));
            }
            match (packet.get_data_byte(0), packet.get_data_byte(1)) {
                (Some(a), Some(b)) => if a != 0xA0 {
                    Err(ProtocolError::UnrecognizedResponseState(a))
                } else if b != 0x04 {
                    Err(ProtocolError::UnrecognizedResponseState(b))
                } else {
                    Ok(Command::ControllerKeepAlive(ControllerState::Ready))
                },
                _ => Err(ProtocolError::TruncatedPacket),
            }
        } else if prefix == CONNECT_PREFIX || prefix == CONNECT_REPLY_PREFIX {
            if id != CONNECT_COMMAND_ID {
                Err(ProtocolError::UnrecognizedCommand(id))
            } else if prefix == CONNECT_PREFIX {
                Ok(Command::Connect(SourceConnect::Controller))
            } else {
                match ResponseState::read_from(packet, 0) {
                    Ok(s) => Ok(Command::Connect(SourceConnect::Desk { response_state: s })),
                    Err(e) => Err(e),
                }
            }
        } else if prefix == HANDSHAKE_PREFIX || prefix == HANDSHAKE_REPLY_PREFIX {
            match Handshake::from_id(id) {
                Ok(t) => if prefix == HANDSHAKE_PREFIX {
                    Ok(Command::Handshake(SourceHandshake::Controller(t)))
                } else {
                    match (packet.get_data_byte(0), packet.get_data_byte(1)) {
                        (Some(a), Some(b)) => Ok(
                            Command::Handshake(
                                SourceHandshake::Desk { topic: t, data: (a as u16) * 256 + b as u16 },
                            ),
                        ),
                        _ => Err(ProtocolError::TruncatedPacket),
                    }
                },
                Err(e) => Err(e),
            }
        } else if prefix == IDENTIFY_PREFIX {
            match (
                packet.get_data_byte(0),
                packet.get_data_byte(1),
                packet.get_data_byte(2),
                packet.get_data_byte(3),
            ) {
                (Some(a), Some(b), Some(c), Some(d)) => {
                    let identifier = (a as u32) * 0x1000000 + (b as u32) * 0x10000 + (c as u32)
                        * 256 + d as u32;
                    Ok(Command::Identify(Id { command_id: id, identifier }))
                },
                _ => Err(ProtocolError::TruncatedPacket),
            }
        } else {
            Err(ProtocolError::UnrecognizedCommand(prefix))
        }
    }

    /// Decodes a packet whose checksum must be right.
    pub fn read_checked(packet: &Packet) -> (r: Result<Command, ProtocolError>)
        requires
            packet@.len() >= MIN_PACKET_LEN,
        ensures
            checksum_of(packet@) != packet@[packet@.len() - 2] ==> r == Err::<Command, _>(
                ProtocolError::InvalidChecksum,
            ),
            checksum_of(packet@) == packet@[packet@.len() - 2] ==> r == decode(packet@),
    {
        match packet.validate_checksum() {
            ValidChecksum::Valid => Command::read_from(packet),
            ValidChecksum::Invalid => Err(ProtocolError::InvalidChecksum),
        }
    }
}

/// The bytes a packet shows at the fixed positions, for a body of at least
/// prefix and command id.
proof fn lemma_framed_fields(body: Seq<u8>, sequence: u16)
    requires
        body.len() >= 2,
    ensures
        framed(body, sequence).len() == body.len() + 5,
        framed(body, sequence)[1] == body[0],
        framed(body, sequence)[2] == body[1],
        data_of(framed(body, sequence)) =~= body.subrange(2, body.len() as int),
        checksum_of(framed(body, sequence)) == framed(body, sequence)[body.len() + 3int],
{
    let f = framed(body, sequence);
    let covered = body + seq![hi(sequence), lo(sequence)];
    assert(f.subrange(1, f.len() - 2) =~= covered);
}

/// Decoding the packet built for a command gives that command back, and
/// its checksum is valid.
pub proof fn lemma_round_trip(c: Command, sequence: u16)
    ensures
        decode(framed(c.spec_encoding(), sequence)) == Ok::<Command, ProtocolError>(c),
        checksum_of(framed(c.spec_encoding(), sequence)) == framed(
            c.spec_encoding(),
            sequence,
        )[framed(c.spec_encoding(), sequence).len() - 2],
{
    let body = c.spec_encoding();
    lemma_framed_fields(body, sequence);
    let d = body.subrange(2, body.len() as int);
    match c {
        Command::Identify(i) => {
            let v = i.identifier;
            assert(be32(be_bytes32(v)) == v) by (nonlinear_arith);
            assert(d =~= be_bytes32(v));
        },
        Command::ReportHeight(h) => {
            assert(be16(hi(h.tenths), lo(h.tenths)) == h.tenths);
        },
        Command::Handshake(SourceHandshake::Desk { topic, data }) => {
            assert(be16(hi(data), lo(data)) == data);
        },
        _ => {},
    }
}

/// The prefix that answers an event, for the events that are answered:
/// change height, connect and handshake, each answered one past its own.
pub open spec fn spec_response_id(event_id: u8) -> Option<u8> {
    if event_id == CONTROLLER_HEIGHT_PREFIX || event_id == CONNECT_PREFIX || event_id
        == HANDSHAKE_PREFIX {
        Some((event_id + 1) as u8)
    } else {
        None
    }
}

/// The prefix to expect in reply to an event sent with `event_id`.
pub fn response_id(event_id: u8) -> (r: Option<u8>)
    ensures
        r == spec_response_id(event_id),
{
    if event_id == CONTROLLER_HEIGHT_PREFIX || event_id == CONNECT_PREFIX || event_id
        == HANDSHAKE_PREFIX {
        Some(event_id + 1)
    } else {
        None
    }
}

/// The command families.
#[derive(Debug, Clone, Copy, PartialEq, Eq, Structural)]
pub enum CommandKind {
    ChangeHeight,
    ReportHeight,
    ControllerKeepAlive,
    Connect,
    Handshake,
    Identify,
}

/// The family whose event or answer is sent under `prefix`.
pub open spec fn spec_kind_of_prefix(prefix: u8) -> Option<CommandKind> {
    if prefix == CONTROLLER_HEIGHT_PREFIX || prefix == DESK_HEIGHT_PREFIX {
        Some(CommandKind::ChangeHeight)
    } else if prefix == DESK_REPORT_PREFIX {
        Some(CommandKind::ReportHeight)
    } else if prefix == KEEP_ALIVE_PREFIX {
        Some(CommandKind::ControllerKeepAlive)
    } else if prefix == CONNECT_PREFIX || prefix == CONNECT_REPLY_PREFIX {
        Some(CommandKind::Connect)
    } else if prefix == HANDSHAKE_PREFIX || prefix == HANDSHAKE_REPLY_PREFIX {
        Some(CommandKind::Handshake)
    } else if prefix == IDENTIFY_PREFIX {
        Some(CommandKind::Identify)
    } else {
        None
    }
}

/// Looks up the family that a prefix byte belongs to.
pub fn kind_of_prefix(prefix: u8) -> (r: Option<CommandKind>)
    ensures
        r == spec_kind_of_prefix(prefix),
{
    if prefix == CONTROLLER_HEIGHT_PREFIX || prefix == DESK_HEIGHT_PREFIX {
        Some(CommandKind::ChangeHeight)
    } else if prefix == DESK_REPORT_PREFIX {
        Some(CommandKind::ReportHeight)
    } else if prefix == KEEP_ALIVE_PREFIX {
        Some(CommandKind::ControllerKeepAlive)
    } else if prefix == CONNECT_PREFIX || prefix == CONNECT_REPLY_PREFIX {
        Some(CommandKind::Connect)
    } else if prefix == HANDSHAKE_PREFIX || prefix == HANDSHAKE_REPLY_PREFIX {
        Some(CommandKind::Handshake)
    } else if prefix == IDENTIFY_PREFIX {
        Some(CommandKind::Identify)
    } else {
        None
    }
}

} // verus!
