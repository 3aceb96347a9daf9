use vstd::prelude::*;

use crate::error::ProtocolError;

verus! {

/// Shortest packet the codec accepts: start sentinel, prefix, command id,
/// two sequence-number bytes, checksum and end sentinel.
pub const MIN_PACKET_LEN: usize = 7;

/// XOR of all bytes of `s`.
pub open spec fn xor_all(s: Seq<u8>) -> u8
    decreases s.len(),
{
    if s.len() == 0 {
        0
    } else {
        xor_all(s.drop_last()) ^ s.last()
    }
}

/// The checksum a packet should carry: the XOR of every byte after the start
/// sentinel up to and including the last sequence-number byte.
pub open spec fn checksum_of(raw: Seq<u8>) -> u8 {
    xor_all(raw.subrange(1, raw.len() - 2))
}

/// The payload between the command id and the trailing four bytes.
pub open spec fn data_of(raw: Seq<u8>) -> Seq<u8> {
    raw.subrange(3, raw.len() - 4)
}

/// The big-endian sequence number stored before the checksum.
pub open spec fn packet_num_of(raw: Seq<u8>) -> u16 {
    ((raw[raw.len() - 4] as int) * 256 + (raw[raw.len() - 3] as int)) as u16
}

/// Whether a stored checksum agrees with the bytes it covers.
#[derive(Debug, Clone, Copy, PartialEq, Eq, Structural)]
pub enum ValidChecksum {
    Valid,
    Invalid,
}

/// A packet's bytes as they travel on the bus, sentinel slots included:
/// `0xFA, prefix, command id, data.., sequence (2), checksum, 0xFD`.
///
/// Only [`Packet::new`] builds one, and it refuses buffers shorter than
/// [`MIN_PACKET_LEN`]; the methods ask for that length.
pub struct Packet {
    raw_data: Vec<u8>,
}

impl View for Packet {
    type V = Seq<u8>;

    closed spec fn view(&self) -> Seq<u8> {
        self.raw_data@
    }
}

impl Packet {
    /// Number of bytes.
    pub fn len(&self) -> (r: usize)
        ensures
            r == self@.len(),
    {
        self.raw_data.len()
    }

    /// Wraps a buffer, which must hold at least the fixed fields.
    pub fn new(raw_data: Vec<u8>) -> (r: Result<Packet, ProtocolError>)
        ensures
            raw_data@.len() >= MIN_PACKET_LEN ==> (r matches Ok(p) && p@ == raw_data@),
            raw_data@.len() < MIN_PACKET_LEN ==> r == Err::<Packet, _>(ProtocolError::TruncatedPacket),
    {
        if raw_data.len() >= MIN_PACKET_LEN {
            Ok(Packet { raw_data })
        } else {
            Err(ProtocolError::TruncatedPacket)
        }
    }

    /// Wraps a buffer known to hold the fixed fields.
    pub fn from_vec(raw_data: Vec<u8>) -> (r: Packet)
        requires
            raw_data@.len() >= MIN_PACKET_LEN,
        ensures
            r@ == raw_data@,
    {
        Packet { raw_data }
    }

    /// The bytes of the packet.
    pub fn as_bytes(&self) -> (r: &Vec<u8>)
        ensures
            r@ == self@,
    {
        &self.raw_data
    }

    /// Gives the buffer back.
    pub fn into_bytes(self) -> (r: Vec<u8>)
        ensures
            r@ == self@,
    {
        self.raw_data
    }

    /// Byte 1: the prefix that names the command and the speaking device.
    pub fn get_command_prefix(&self) -> (r: u8)
        requires
            self@.len() >= MIN_PACKET_LEN,
        ensures
            r == self@[1],
    {
        self.raw_data[1]
    }

    /// Byte 2: the command id.
    pub fn get_command_id(&self) -> (r: u8)
        requires
            self@.len() >= MIN_PACKET_LEN,
        ensures
            r == self@[2],
    {
        self.raw_data[2]
    }

    /// The stored checksum, second to last.
    pub fn get_checksum(&self) -> (r: u8)
        requires
            self@.len() >= MIN_PACKET_LEN,
        ensures
            r == self@[self@.len() - 2],
    {
        self.raw_data[self.raw_data.len() - 2]
    }

    /// The big-endian sequence number in the two bytes before the checksum.
    pub fn get_packet_num(&self) -> (r: u16)
        requires
            self@.len() >= MIN_PACKET_LEN,
        ensures
            r == packet_num_of(self@),
    {
        let len = self.raw_data.len();
        let hi = self.raw_data[len - 4] as u16;
        let lo = self.raw_data[len - 3] as u16;
        hi * 256 + lo
    }

    /// A copy of the bytes between the command id and the trailing four.
    pub fn get_data(&self) -> (r: Vec<u8>)
        requires
            self@.len() >= MIN_PACKET_LEN,
        ensures
            r@ == data_of(self@),
    {
        let end = self.raw_data.len() - 4;
        let mut out: Vec<u8> = Vec::new();
        let mut i: usize = 3;
        while i < end
            invariant
                3 <= i <= end,
                end == self@.len() - 4,
                self@.len() >= MIN_PACKET_LEN,
                out@ == self@.subrange(3, i as int),
            decreases end - i,
        {
            out.push(self.raw_data[i]);
            i += 1;
            assert(out@ =~= self@.subrange(3, i as int));
        }
        out
    }

    /// Byte `i` of the data, if the data is that long.
    pub fn get_data_byte(&self, i: usize) -> (r: Option<u8>)
        requires
            self@.len() >= MIN_PACKET_LEN,
        ensures
            r == (if i < data_of(self@).len() {
                Some(data_of(self@)[i as int])
            } else {
                None::<u8>
            }),
    {
        let data_len = self.raw_data.len() - MIN_PACKET_LEN;
        if i < data_len {
            Some(self.raw_data[3 + i])
        } else {
            None
        }
    }

    /// The checksum computed from the covered bytes.
    pub fn checksum(&self) -> (r: u8)
        requires
            self@.len() >= MIN_PACKET_LEN,
        ensures
            r == checksum_of(self@),
    {
        let end = self.raw_data.len() - 2;
        let mut acc: u8 = 0;
        let mut i: usize = 1;
        while i < end
            invariant
                1 <= i <= end,
                end == self@.len() - 2,
                self@.len() >= MIN_PACKET_LEN,
                acc == xor_all(self@.subrange(1, i as int)),
            decreases end - i,
        {
            assert(self@.subrange(1, i + 1).drop_last() =~= self@.subrange(1, i as int));
            acc = acc ^ self.raw_data[i];
            i += 1;
        }
        acc
    }

    /// Compares the stored checksum with the computed one.
    pub fn validate_checksum(&self) -> (r: ValidChecksum)
        requires
            self@.len() >= MIN_PACKET_LEN,
        ensures
            r == (if checksum_of(self@) == self@[self@.len() - 2] {
                ValidChecksum::Valid
            } else {
                ValidChecksum::Invalid
            }),
    {
        if self.checksum() == self.get_checksum() {
            ValidChecksum::Valid
        } else {
            ValidChecksum::Invalid
        }
    }

    /// Writes the computed checksum into its slot, leaving every other byte.
    pub fn insert_checksum(&mut self)
        requires
            old(self)@.len() >= MIN_PACKET_LEN,
        ensures
            final(self)@ == old(self)@.update(old(self)@.len() - 2, checksum_of(old(self)@)),
    {
        let c = self.checksum();
        let len = self.raw_data.len();
        self.raw_data.set(len - 2, c);
    }
}

/// Writing the checksum and then checking it always finds it valid.
pub proof fn lemma_insert_then_validate(before: Seq<u8>, after: Seq<u8>)
    requires
        before.len() >= MIN_PACKET_LEN,
        after == before.update(before.len() - 2, checksum_of(before)),
    ensures
        checksum_of(after) == after[after.len() - 2],
{
    assert(after.subrange(1, after.len() - 2) =~= before.subrange(1, before.len() - 2));
}

} // verus!
