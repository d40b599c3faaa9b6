use vstd::prelude::*;
use crate::pid::PID;
use crate::index::MonotonicIndex;

verus! {

/// What the next packet or transaction does to the one in progress.
#[derive(Copy, Clone, Debug, PartialEq, Eq, Structural)]
pub enum DecodeStatus {
    NEW,
    CONTINUE,
    DONE,
    INVALID,
}

/// The link-layer rule: how a packet with PID `next` relates to a
/// transaction whose first and last packets had PIDs `first` and `last`.
pub open spec fn transaction_status(first: PID, last: PID, next: PID) -> DecodeStatus {
    if next == PID::SETUP || next == PID::IN || next == PID::OUT {
        DecodeStatus::NEW
    } else if last == PID::Malformed && next == PID::SOF {
        DecodeStatus::NEW
    } else if last == PID::SOF && next == PID::SOF {
        DecodeStatus::CONTINUE
    } else if last == PID::SETUP && next == PID::DATA0 {
        DecodeStatus::CONTINUE
    } else if first == PID::SETUP && last == PID::DATA0 && next == PID::ACK {
        DecodeStatus::DONE
    } else if last == PID::IN && (next == PID::NAK || next == PID::STALL) {
        DecodeStatus::DONE
    } else if (last == PID::IN || last == PID::OUT) && (next == PID::DATA0 || next == PID::DATA1) {
        DecodeStatus::CONTINUE
    } else if (first == PID::IN || first == PID::OUT) && (last == PID::DATA0 || last == PID::DATA1)
        && next == PID::ACK {
        DecodeStatus::DONE
    } else if first == PID::OUT && (last == PID::DATA0 || last == PID::DATA1) && (next == PID::NAK
        || next == PID::STALL) {
        DecodeStatus::DONE
    } else {
        DecodeStatus::INVALID
    }
}

/// The transaction being assembled from incoming packets.
#[derive(Copy, Clone, Debug)]
pub struct TransactionState {
    pub first: PID,
    pub last: PID,
    pub start: u64,
    pub count: u64,
    pub endpoint_id: usize,
}

impl TransactionState {
    pub fn new() -> (r: TransactionState)
        ensures
            r.first == PID::Malformed,
            r.last == PID::Malformed,
            r.start == 0,
            r.count == 0,
            r.endpoint_id == 0,
    {
        TransactionState { first: PID::Malformed, last: PID::Malformed, start: 0, count: 0, endpoint_id: 0 }
    }

    pub fn status(&self, next: PID) -> (r: DecodeStatus)
        ensures
            r == transaction_status(self.first, self.last, next),
    {
        let first = self.first;
        let last = self.last;
        if next == PID::SETUP || next == PID::IN || next == PID::OUT {
            DecodeStatus::NEW
        } else if last == PID::Malformed && next == PID::SOF {
            DecodeStatus::NEW
        } else if last == PID::SOF && next == PID::SOF {
            DecodeStatus::CONTINUE
        } else if last == PID::SETUP && next == PID::DATA0 {
            DecodeStatus::CONTINUE
        } else if first == PID::SETUP && last == PID::DATA0 && next == PID::ACK {
            DecodeStatus::DONE
        } else if last == PID::IN && (next == PID::NAK || next == PID::STALL) {
            DecodeStatus::DONE
        } else if (last == PID::IN || last == PID::OUT) && (next == PID::DATA0 || next
            == PID::DATA1) {
            DecodeStatus::CONTINUE
        } else if (first == PID::IN || first == PID::OUT) && (last == PID::DATA0 || last
            == PID::DATA1) && next == PID::ACK {
            DecodeStatus::DONE
        } else if first == PID::OUT && (last == PID::DATA0 || last == PID::DATA1) && (next
            == PID::NAK || next == PID::STALL) {
            DecodeStatus::DONE
        } else {
            DecodeStatus::INVALID
        }
    }
}

/// The kind of an endpoint, from its endpoint number.
#[derive(Copy, Clone, Debug, PartialEq, Eq, Structural)]
pub enum EndpointType {
    Control,
    Normal,
    Framing,
    Invalid,
}

pub const FRAMING_NUMBER: u8 = 0xFE;
pub const INVALID_NUMBER: u8 = 0xFF;

pub open spec fn endpoint_type_of(num: u8) -> EndpointType {
    if num == 0 {
        EndpointType::Control
    } else if num == FRAMING_NUMBER {
        EndpointType::Framing
    } else if num == INVALID_NUMBER {
        EndpointType::Invalid
    } else {
        EndpointType::Normal
    }
}

impl EndpointType {
    pub fn from_number(num: u8) -> (r: EndpointType)
        ensures
            r == endpoint_type_of(num),
    {
        if num == 0 {
            EndpointType::Control
        } else if num == FRAMING_NUMBER {
            EndpointType::Framing
        } else if num == INVALID_NUMBER {
            EndpointType::Invalid
        } else {
            EndpointType::Normal
        }
    }
}

/// The transfer-layer rule: how a transaction whose first PID is `next`
/// relates to the transfer in progress on an endpoint of type `t`, whose
/// last successful transaction started with `last`.
pub open spec fn endpoint_status(t: EndpointType, last: PID, next: PID) -> DecodeStatus {
    match t {
        EndpointType::Control => {
            if next == PID::SETUP {
                DecodeStatus::NEW
            } else if last == PID::SETUP && (next == PID::IN || next == PID::OUT) {
                DecodeStatus::CONTINUE
            } else if (last == PID::IN && next == PID::IN) || (last == PID::OUT && next == PID::OUT) {
                DecodeStatus::CONTINUE
            } else if (last == PID::IN && next == PID::OUT) || (last == PID::OUT && next == PID::IN) {
                DecodeStatus::DONE
            } else {
                DecodeStatus::INVALID
            }
        },
        EndpointType::Normal => {
            if last == PID::Malformed && (next == PID::IN || next == PID::OUT) {
                DecodeStatus::NEW
            } else if (last == PID::IN && next == PID::IN) || (last == PID::OUT && next == PID::OUT) {
                DecodeStatus::CONTINUE
            } else {
                DecodeStatus::INVALID
            }
        },
        EndpointType::Framing => {
            if last == PID::Malformed && next == PID::SOF {
                DecodeStatus::NEW
            } else if last == PID::SOF && next == PID::SOF {
                DecodeStatus::CONTINUE
            } else {
                DecodeStatus::INVALID
            }
        },
        EndpointType::Invalid => DecodeStatus::INVALID,
    }
}

/// Per-endpoint record of transactions and transfers.
pub struct EndpointData {
    pub ep_type: EndpointType,
    /// Global ids of the transactions on this endpoint, in order.
    pub transaction_ids: MonotonicIndex,
    /// For each transfer, the position in `transaction_ids` where it starts.
    pub transfer_index: MonotonicIndex,
    pub transaction_start: u64,
    pub transaction_count: u64,
    pub last: PID,
}

impl EndpointData {
    pub fn new(ep_type: EndpointType) -> (r: EndpointData)
        ensures
            r.ep_type == ep_type,
            r.transaction_ids.wf(),
            r.transaction_ids@.len() == 0,
            r.transfer_index.wf(),
            r.transfer_index@.len() == 0,
            r.transaction_start == 0,
            r.transaction_count == 0,
            r.last == PID::Malformed,
    {
        EndpointData {
            ep_type,
            transaction_ids: MonotonicIndex::new(),
            transfer_index: MonotonicIndex::new(),
            transaction_start: 0,
            transaction_count: 0,
            last: PID::Malformed,
        }
    }

    pub fn status(&self, next: PID) -> (r: DecodeStatus)
        ensures
            r == endpoint_status(self.ep_type, self.last, next),
    {
        let last = self.last;
        match self.ep_type {
            EndpointType::Control => {
                if next == PID::SETUP {
                    DecodeStatus::NEW
                } else if last == PID::SETUP && (next == PID::IN || next == PID::OUT) {
                    DecodeStatus::CONTINUE
                } else if (last == PID::IN && next == PID::IN) || (last == PID::OUT && next
                    == PID::OUT) {
                    DecodeStatus::CONTINUE
                } else if (last == PID::IN && next == PID::OUT) || (last == PID::OUT && next
                    == PID::IN) {
                    DecodeStatus::DONE
                } else {
                    DecodeStatus::INVALID
                }
            },
            EndpointType::Normal => {
                if last == PID::Malformed && (next == PID::IN || next == PID::OUT) {
                    DecodeStatus::NEW
                } else if (last == PID::IN && next == PID::IN) || (last == PID::OUT && next
                    == PID::OUT) {
                    DecodeStatus::CONTINUE
                } else {
                    DecodeStatus::INVALID
                }
            },
            EndpointType::Framing => {
                if last == PID::Malformed && next == PID::SOF {
                    DecodeStatus::NEW
                } else if last == PID::SOF && next == PID::SOF {
                    DecodeStatus::CONTINUE
                } else {
                    DecodeStatus::INVALID
                }
            },
            EndpointType::Invalid => DecodeStatus::INVALID,
        }
    }
}

/// Where an endpoint stands at a transfer boundary, for drawing.
#[derive(Copy, Clone, Debug, PartialEq, Eq, Structural)]
pub enum EndpointState {
    Idle,
    Starting,
    Ongoing,
    Ending,
}

pub open spec fn endpoint_state_of(b: u8) -> EndpointState {
    if b == 1 {
        EndpointState::Starting
    } else if b == 2 {
        EndpointState::Ongoing
    } else if b == 3 {
        EndpointState::Ending
    } else {
        EndpointState::Idle
    }
}

pub open spec fn state_byte(s: EndpointState) -> u8 {
    match s {
        EndpointState::Idle => 0,
        EndpointState::Starting => 1,
        EndpointState::Ongoing => 2,
        EndpointState::Ending => 3,
    }
}

/// The state of one endpoint after a transfer entry is added for
/// `same ? this endpoint : another`, starting a transfer or ending one.
pub open spec fn next_endpoint_state(same: bool, start: bool, last: EndpointState) -> EndpointState {
    if same {
        if start { EndpointState::Starting } else { EndpointState::Ending }
    } else if last == EndpointState::Starting || last == EndpointState::Ongoing {
        EndpointState::Ongoing
    } else {
        EndpointState::Idle
    }
}

impl EndpointState {
    pub fn from_u8(b: u8) -> (r: EndpointState)
        ensures
            r == endpoint_state_of(b),
    {
        match b {
            1 => EndpointState::Starting,
            2 => EndpointState::Ongoing,
            3 => EndpointState::Ending,
            _ => EndpointState::Idle,
        }
    }

    pub fn to_u8(self) -> (r: u8)
        ensures
            r == state_byte(self),
            endpoint_state_of(r) == self,
    {
        match self {
            EndpointState::Idle => 0,
            EndpointState::Starting => 1,
            EndpointState::Ongoing => 2,
            EndpointState::Ending => 3,
        }
    }

    pub fn next(same: bool, start: bool, last: EndpointState) -> (r: EndpointState)
        ensures
            r == next_endpoint_state(same, start, last),
    {
        if same {
            if start { EndpointState::Starting } else { EndpointState::Ending }
        } else if last == EndpointState::Starting || last == EndpointState::Ongoing {
            EndpointState::Ongoing
        } else {
            EndpointState::Idle
        }
    }
}

} // verus!
