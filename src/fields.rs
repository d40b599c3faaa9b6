use vstd::prelude::*;
use crate::pid::{PID, pid_of};

verus! {

/// The byte at position `i`, or zero where the packet is too short to hold it.
pub open spec fn byte_at(p: Seq<u8>, i: int) -> u8 {
    if 0 <= i < p.len() { p[i] } else { 0 }
}

/// A little-endian 16-bit word from two bytes.
pub open spec fn le16(lo: u8, hi: u8) -> u16 {
    (lo as int + 256 * (hi as int)) as u16
}

pub fn read_byte(p: &[u8], i: usize) -> (r: u8)
    ensures
        r == byte_at(p@, i as int),
{
    if i < p.len() { p[i] } else { 0 }
}

pub fn read_le16(lo: u8, hi: u8) -> (r: u16)
    ensures
        r == le16(lo, hi),
        r as int == lo as int + 256 * (hi as int),
{
    lo as u16 + (hi as u16) * 256
}

/// Start-of-frame word: bits 0..11 frame number, bits 11..16 CRC.
#[derive(Copy, Clone, Debug)]
pub struct SOFFields(pub u16);

impl SOFFields {
    pub fn frame_number(&self) -> (r: u16)
        ensures
            r == self.0 % 2048,
    {
        self.0 % 2048
    }

    pub fn crc(&self) -> (r: u8)
        ensures
            r == self.0 / 2048,
    {
        (self.0 / 2048) as u8
    }
}

/// Token word: bits 0..7 device address, bits 7..11 endpoint number,
/// bits 11..16 CRC.
#[derive(Copy, Clone, Debug)]
pub struct TokenFields(pub u16);

impl TokenFields {
    pub fn device_address(&self) -> (r: u8)
        ensures
            r == self.0 % 128,
    {
        (self.0 % 128) as u8
    }

    pub fn endpoint_number(&self) -> (r: u8)
        ensures
            r == (self.0 / 128) % 16,
    {
        ((self.0 / 128) % 16) as u8
    }

    pub fn crc(&self) -> (r: u8)
        ensures
            r == self.0 / 2048,
    {
        (self.0 / 2048) as u8
    }
}

#[derive(Copy, Clone, Debug)]
pub struct DataFields {
    pub crc: u16,
}

/// The fields of a packet that its PID gives a layout to.
#[derive(Copy, Clone, Debug)]
pub enum PacketFields {
    SOF(SOFFields),
    Token(TokenFields),
    Data(DataFields),
    Plain,
}

/// What `from_packet` decodes from a packet; bytes missing from a short
/// packet read as zero.
pub open spec fn packet_fields(p: Seq<u8>) -> PacketFields {
    let pid = pid_of(byte_at(p, 0));
    let word = le16(byte_at(p, 1), byte_at(p, 2));
    if pid == PID::SOF {
        PacketFields::SOF(SOFFields(word))
    } else if pid == PID::SETUP || pid == PID::IN || pid == PID::OUT {
        PacketFields::Token(TokenFields(word))
    } else if pid == PID::DATA0 || pid == PID::DATA1 {
        PacketFields::Data(
            DataFields { crc: le16(byte_at(p, p.len() - 2), byte_at(p, p.len() - 1)) },
        )
    } else {
        PacketFields::Plain
    }
}

impl PacketFields {
    pub fn from_packet(packet: &[u8]) -> (r: PacketFields)
        ensures
            r == packet_fields(packet@),
    {
        let pid = PID::from_byte(read_byte(packet, 0));
        match pid {
            PID::SOF => PacketFields::SOF(
                SOFFields(read_le16(read_byte(packet, 1), read_byte(packet, 2))),
            ),
            PID::SETUP | PID::IN | PID::OUT => PacketFields::Token(
                TokenFields(read_le16(read_byte(packet, 1), read_byte(packet, 2))),
            ),
            PID::DATA0 | PID::DATA1 => {
                let end = packet.len();
                let lo = if end >= 2 { packet[end - 2] } else { 0 };
                let hi = if end >= 1 { packet[end - 1] } else { 0 };
                PacketFields::Data(DataFields { crc: read_le16(lo, hi) })
            },
            _ => PacketFields::Plain,
        }
    }
}

#[derive(Copy, Clone, Debug, PartialEq, Eq, Structural)]
pub enum RequestType {
    Standard,
    Class,
    Vendor,
    Reserved,
}

#[derive(Copy, Clone, Debug, PartialEq, Eq, Structural)]
pub enum Recipient {
    Device,
    Interface,
    Endpoint,
    Other,
    Reserved,
}

#[derive(Copy, Clone, Debug, PartialEq, Eq, Structural)]
pub enum Direction {
    Out,
    In,
}

pub open spec fn recipient_of(v: u8) -> Recipient {
    if v == 0 { Recipient::Device }
    else if v == 1 { Recipient::Interface }
    else if v == 2 { Recipient::Endpoint }
    else if v == 3 { Recipient::Other }
    else { Recipient::Reserved }
}

pub open spec fn request_type_of(v: u8) -> RequestType {
    if v == 0 { RequestType::Standard }
    else if v == 1 { RequestType::Class }
    else if v == 2 { RequestType::Vendor }
    else { RequestType::Reserved }
}

impl RequestType {
    /// The variant's name.
    pub fn name(&self) -> (r: &'static str)
        ensures
            r@ == request_type_name(*self),
    {
        match self {
            RequestType::Standard => "Standard",
            RequestType::Class => "Class",
            RequestType::Vendor => "Vendor",
            RequestType::Reserved => "Reserved",
        }
    }
}

pub open spec fn request_type_name(t: RequestType) -> Seq<char> {
    match t {
        RequestType::Standard => "Standard"@,
        RequestType::Class => "Class"@,
        RequestType::Vendor => "Vendor"@,
        RequestType::Reserved => "Reserved"@,
    }
}

/// The bmRequestType byte: bits 0..5 recipient, bits 5..7 type, bit 7
/// direction.
#[derive(Copy, Clone, Debug, Default)]
pub struct RequestTypeFields(pub u8);

impl RequestTypeFields {
    pub fn recipient(&self) -> (r: Recipient)
        ensures
            r == recipient_of(self.0 % 32),
    {
        match self.0 % 32 {
            0 => Recipient::Device,
            1 => Recipient::Interface,
            2 => Recipient::Endpoint,
            3 => Recipient::Other,
            _ => Recipient::Reserved,
        }
    }

    pub fn request_type(&self) -> (r: RequestType)
        ensures
            r == request_type_of((self.0 / 32) % 4),
    {
        match (self.0 / 32) % 4 {
            0 => RequestType::Standard,
            1 => RequestType::Class,
            2 => RequestType::Vendor,
            _ => RequestType::Reserved,
        }
    }

    pub fn direction(&self) -> (r: Direction)
        ensures
            r == (if self.0 / 128 == 0 { Direction::Out } else { Direction::In }),
    {
        if self.0 / 128 == 0 { Direction::Out } else { Direction::In }
    }
}

/// The eight bytes of a setup stage.
#[derive(Copy, Clone, Debug)]
pub struct SetupFields {
    pub type_fields: RequestTypeFields,
    pub request: u8,
    pub value: u16,
    pub index: u16,
    pub length: u16,
}

/// The setup fields held by bytes 1..9 of a data packet; bytes missing
/// from a short packet read as zero.
pub open spec fn setup_fields(p: Seq<u8>) -> SetupFields {
    SetupFields {
        type_fields: RequestTypeFields(byte_at(p, 1)),
        request: byte_at(p, 2),
        value: le16(byte_at(p, 3), byte_at(p, 4)),
        index: le16(byte_at(p, 5), byte_at(p, 6)),
        length: le16(byte_at(p, 7), byte_at(p, 8)),
    }
}

impl SetupFields {
    pub fn from_data_packet(packet: &[u8]) -> (r: SetupFields)
        ensures
            r == setup_fields(packet@),
    {
        SetupFields {
            type_fields: RequestTypeFields(read_byte(packet, 1)),
            request: read_byte(packet, 2),
            value: read_le16(read_byte(packet, 3), read_byte(packet, 4)),
            index: read_le16(read_byte(packet, 5), read_byte(packet, 6)),
            length: read_le16(read_byte(packet, 7), read_byte(packet, 8)),
        }
    }
}

/// A device address and endpoint number, stored as two bytes.
#[derive(Copy, Clone, Debug, Default)]
pub struct Endpoint {
    pub device_address: u8,
    pub endpoint_number: u8,
}

pub const TRANSFER_ID_LIMIT: u64 = 0x10_0000_0000_0000;
pub const ENDPOINT_ID_LIMIT: u64 = 0x800;
pub const START_BIT: u64 = 0x8000_0000_0000_0000;

/// One 64-bit word of the transfer index: bits 0..52 transfer id,
/// bits 52..63 endpoint id, bit 63 set on the entry that starts a transfer.
#[derive(Copy, Clone, Debug, Default)]
pub struct TransferIndexEntry(pub u64);

impl TransferIndexEntry {
    pub open spec fn spec_transfer_id(self) -> u64 {
        self.0 % TRANSFER_ID_LIMIT
    }

    pub open spec fn spec_endpoint_id(self) -> u64 {
        (self.0 / TRANSFER_ID_LIMIT) % ENDPOINT_ID_LIMIT
    }

    pub open spec fn spec_is_start(self) -> bool {
        self.0 / START_BIT == 1
    }

    /// Packs the three fields into one word.
    pub fn new(transfer_id: u64, endpoint_id: u64, start: bool) -> (r: TransferIndexEntry)
        requires
            transfer_id < TRANSFER_ID_LIMIT,
            endpoint_id < ENDPOINT_ID_LIMIT,
        ensures
            r.spec_transfer_id() == transfer_id,
            r.spec_endpoint_id() == endpoint_id,
            r.spec_is_start() == start,
    {
        let flag: u64 = if start { 1 } else { 0 };
        let v: u64 = transfer_id + endpoint_id * TRANSFER_ID_LIMIT + flag * START_BIT;
        proof {
            let t = transfer_id as int;
            let e = endpoint_id as int;
            let f = flag as int;
            let L = TRANSFER_ID_LIMIT as int;
            assert(v as int == t + L * (e + 2048 * f));
            vstd::arithmetic::div_mod::lemma_fundamental_div_mod_converse(
                v as int, L, e + 2048 * f, t);
            vstd::arithmetic::div_mod::lemma_fundamental_div_mod_converse(
                e + 2048 * f, 2048, f, e);
            assert(START_BIT as int == L * 2048);
            vstd::arithmetic::div_mod::lemma_div_denominator(v as int, L, 2048);
        }
        TransferIndexEntry(v)
    }

    pub fn transfer_id(&self) -> (r: u64)
        ensures
            r == self.spec_transfer_id(),
    {
        self.0 % TRANSFER_ID_LIMIT
    }

    pub fn endpoint_id(&self) -> (r: u64)
        ensures
            r == self.spec_endpoint_id(),
    {
        (self.0 / TRANSFER_ID_LIMIT) % ENDPOINT_ID_LIMIT
    }

    pub fn is_start(&self) -> (r: bool)
        ensures
            r == self.spec_is_start(),
    {
        self.0 / START_BIT == 1
    }

    /// Sets or clears the start flag, leaving the other fields as they were.
    pub fn set_is_start(&mut self, value: bool)
        ensures
            final(self).spec_is_start() == value,
            final(self).spec_transfer_id() == old(self).spec_transfer_id(),
            final(self).spec_endpoint_id() == old(self).spec_endpoint_id(),
    {
        let t = self.transfer_id();
        let e = self.endpoint_id();
        *self = TransferIndexEntry::new(t, e, value);
    }
}

/// A start-of-frame packet built from a frame number and CRC decodes back
/// to both.
pub proof fn lemma_sof_round_trip(frame: u16, crc: u16)
    requires
        frame < 2048,
        crc < 32,
    ensures
        ({
            let w = frame + crc * 2048;
            match packet_fields(seq![0xA5u8, (w % 256) as u8, (w / 256) as u8]) {
                PacketFields::SOF(f) => f.0 % 2048 == frame && f.0 / 2048 == crc,
                _ => false,
            }
        }),
{
    let w = frame + crc * 2048;
    let p = seq![0xA5u8, (w % 256) as u8, (w / 256) as u8];
    assert(byte_at(p, 0) == 0xA5);
    assert(le16(byte_at(p, 1), byte_at(p, 2)) == w);
}

/// A token packet (SETUP, IN or OUT) built from an address, an endpoint
/// number and a CRC decodes back to all three.
pub proof fn lemma_token_round_trip(pid: u8, addr: u16, ep: u16, crc: u16)
    requires
        pid == 0x2D || pid == 0x69 || pid == 0xE1,
        addr < 128,
        ep < 16,
        crc < 32,
    ensures
        ({
            let w = addr + ep * 128 + crc * 2048;
            match packet_fields(seq![pid, (w % 256) as u8, (w / 256) as u8]) {
                PacketFields::Token(f) => f.0 % 128 == addr && (f.0 / 128) % 16 == ep && f.0 / 2048
                    == crc,
                _ => false,
            }
        }),
{
    let w = addr + ep * 128 + crc * 2048;
    let p = seq![pid, (w % 256) as u8, (w / 256) as u8];
    assert(byte_at(p, 0) == pid);
    assert(le16(byte_at(p, 1), byte_at(p, 2)) == w);
}

/// A DATA0 or DATA1 packet ending in a little-endian CRC decodes back to
/// that CRC, whatever its payload.
pub proof fn lemma_data_round_trip(pid: u8, payload: Seq<u8>, crc: u16)
    requires
        pid == 0xC3 || pid == 0x4B,
    ensures
        packet_fields(seq![pid] + payload + seq![(crc % 256) as u8, (crc / 256) as u8])
            == PacketFields::Data(DataFields { crc }),
{
    let p = seq![pid] + payload + seq![(crc % 256) as u8, (crc / 256) as u8];
    assert(p[0] == pid);
    assert(p[p.len() - 2] == (crc % 256) as u8);
    assert(p[p.len() - 1] == (crc / 256) as u8);
}

} // verus!
