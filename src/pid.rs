use vstd::prelude::*;

verus! {

/// Packet identifier: the first byte of every USB packet.
#[derive(Copy, Clone, Debug, PartialEq, Eq, Structural)]
pub enum PID {
    RSVD,
    OUT,
    ACK,
    DATA0,
    PING,
    SOF,
    NYET,
    DATA2,
    SPLIT,
    IN,
    NAK,
    DATA1,
    ERR,
    SETUP,
    STALL,
    MDATA,
    Malformed,
}

/// The PID that a byte encodes; every byte that is not one of the sixteen
/// defined values is `Malformed`.
pub open spec fn pid_of(b: u8) -> PID {
    if b == 0xF0 { PID::RSVD }
    else if b == 0xE1 { PID::OUT }
    else if b == 0xD2 { PID::ACK }
    else if b == 0xC3 { PID::DATA0 }
    else if b == 0xB4 { PID::PING }
    else if b == 0xA5 { PID::SOF }
    else if b == 0x96 { PID::NYET }
    else if b == 0x87 { PID::DATA2 }
    else if b == 0x78 { PID::SPLIT }
    else if b == 0x69 { PID::IN }
    else if b == 0x5A { PID::NAK }
    else if b == 0x4B { PID::DATA1 }
    else if b == 0x3C { PID::ERR }
    else if b == 0x2D { PID::SETUP }
    else if b == 0x1E { PID::STALL }
    else if b == 0x0F { PID::MDATA }
    else { PID::Malformed }
}

impl Default for PID {
    fn default() -> (r: PID)
        ensures
            r == PID::Malformed,
    {
        PID::Malformed
    }
}

/// The name under which a PID is shown.
pub open spec fn pid_name(p: PID) -> Seq<char> {
    match p {
        PID::RSVD => "RSVD"@,
        PID::OUT => "OUT"@,
        PID::ACK => "ACK"@,
        PID::DATA0 => "DATA0"@,
        PID::PING => "PING"@,
        PID::SOF => "SOF"@,
        PID::NYET => "NYET"@,
        PID::DATA2 => "DATA2"@,
        PID::SPLIT => "SPLIT"@,
        PID::IN => "IN"@,
        PID::NAK => "NAK"@,
        PID::DATA1 => "DATA1"@,
        PID::ERR => "ERR"@,
        PID::SETUP => "SETUP"@,
        PID::STALL => "STALL"@,
        PID::MDATA => "MDATA"@,
        PID::Malformed => "Malformed"@,
    }
}

impl PID {
    pub fn name(&self) -> (r: &'static str)
        ensures
            r@ == pid_name(*self),
    {
        match self {
            PID::RSVD => "RSVD",
            PID::OUT => "OUT",
            PID::ACK => "ACK",
            PID::DATA0 => "DATA0",
            PID::PING => "PING",
            PID::SOF => "SOF",
            PID::NYET => "NYET",
            PID::DATA2 => "DATA2",
            PID::SPLIT => "SPLIT",
            PID::IN => "IN",
            PID::NAK => "NAK",
            PID::DATA1 => "DATA1",
            PID::ERR => "ERR",
            PID::SETUP => "SETUP",
            PID::STALL => "STALL",
            PID::MDATA => "MDATA",
            PID::Malformed => "Malformed",
        }
    }

    pub fn from_byte(b: u8) -> (r: PID)
        ensures
            r == pid_of(b),
    {
        match b {
            0xF0 => PID::RSVD,
            0xE1 => PID::OUT,
            0xD2 => PID::ACK,
            0xC3 => PID::DATA0,
            0xB4 => PID::PING,
            0xA5 => PID::SOF,
            0x96 => PID::NYET,
            0x87 => PID::DATA2,
            0x78 => PID::SPLIT,
            0x69 => PID::IN,
            0x5A => PID::NAK,
            0x4B => PID::DATA1,
            0x3C => PID::ERR,
            0x2D => PID::SETUP,
            0x1E => PID::STALL,
            0x0F => PID::MDATA,
            _ => PID::Malformed,
        }
    }
}

} // verus!
