use vstd::prelude::*;
use vstd::string::*;
use crate::pid::{PID, pid_of, pid_name};
use crate::fields::{
    PacketFields, SetupFields, Endpoint, Recipient, RequestType, Direction, packet_fields, byte_at,
    recipient_of, request_type_of, request_type_name,
};
use crate::request::{StandardRequest, standard_request_of, request_text};
use crate::fsm::EndpointType;
use crate::text::{dec, hex, hex_lower, push_dec, push_hex, text};

verus! {

/// The bytes as two lower-case hex digits each, separated by ", ".
pub open spec fn bytes_list(s: Seq<u8>) -> Seq<char>
    decreases s.len(),
{
    if s.len() == 0 {
        Seq::empty()
    } else if s.len() == 1 {
        hex_lower(s[0] as nat, 2)
    } else {
        bytes_list(s.drop_last()) + ", "@ + hex_lower(s.last() as nat, 2)
    }
}

/// The bytes of a packet as a bracketed list.
pub open spec fn bytes_text(s: Seq<u8>) -> Seq<char> {
    "["@ + bytes_list(s) + "]"@
}

/// The payload of a data packet of `len` bytes: all but PID and CRC.
pub open spec fn data_bytes(len: nat) -> nat {
    if len >= 3 { (len - 3) as nat } else { 0 }
}

/// What a packet summary says of the packet's decoded fields.
pub open spec fn fields_text(f: PacketFields, len: nat) -> Seq<char> {
    match f {
        PacketFields::SOF(sof) => " with frame number "@ + dec((sof.0 % 2048) as nat) + ", CRC "@
            + hex((sof.0 / 2048) as nat, 2),
        PacketFields::Token(t) => " on "@ + dec((t.0 % 128) as nat) + "."@ + dec(
            ((t.0 / 128) % 16) as nat,
        ) + ", CRC "@ + hex((t.0 / 2048) as nat, 2),
        PacketFields::Data(d) => " with "@ + dec(data_bytes(len)) + " data bytes and CRC "@ + hex(
            d.crc as nat,
            4,
        ),
        PacketFields::Plain => Seq::empty(),
    }
}

/// The summary line of one packet.
pub open spec fn packet_summary(p: Seq<u8>) -> Seq<char> {
    pid_name(pid_of(byte_at(p, 0))) + " packet"@ + fields_text(packet_fields(p), p.len()) + ": "@
        + bytes_text(p)
}

/// The summary line of a transaction of `count` packets whose first PID is
/// `pid`, carrying `payload` data bytes if it has a data stage.
pub open spec fn transaction_summary(pid: PID, count: nat, payload: Option<nat>) -> Seq<char> {
    if pid == PID::SOF {
        dec(count) + " SOF packets"@
    } else {
        match payload {
            Option::None => pid_name(pid) + " transaction, "@ + dec(count) + " packets"@,
            Option::Some(size) => pid_name(pid) + " transaction, "@ + dec(count) + " packets"@
                + " with "@ + dec(size) + " data bytes"@,
        }
    }
}

/// The summary line of the entry that ends a transfer.
pub open spec fn transfer_end_summary(t: EndpointType, ep: Endpoint) -> Seq<char> {
    "End of "@ + match t {
        EndpointType::Invalid => "invalid groups"@,
        EndpointType::Framing => "SOF groups"@,
        EndpointType::Control => "control transfer on device "@ + dec(ep.device_address as nat),
        EndpointType::Normal => "bulk transfer on endpoint "@ + dec(ep.device_address as nat) + "."@
            + dec(ep.endpoint_number as nat),
    }
}

/// The summary line of a transfer of `count` transactions on an endpoint
/// that is not a control endpoint.
pub open spec fn transfer_summary(t: EndpointType, ep: Endpoint, count: nat) -> Seq<char> {
    match t {
        EndpointType::Invalid => dec(count) + " invalid groups"@,
        EndpointType::Framing => dec(count) + " SOF groups"@,
        _ => "Bulk transfer with "@ + dec(count) + " transactions on endpoint "@ + dec(
            ep.device_address as nat,
        ) + "."@ + dec(ep.endpoint_number as nat),
    }
}

/// What a control transfer's setup stage asks for.
pub open spec fn action_clause(f: SetupFields) -> Seq<char> {
    let rt = request_type_of((f.type_fields.0 / 32) % 4);
    if rt == RequestType::Standard {
        request_text(standard_request_of(f.request), f)
    } else {
        request_type_name(rt) + " request #"@ + dec(f.request as nat) + ", index "@ + dec(
            f.index as nat,
        ) + ", value "@ + dec(f.value as nat)
    }
}

/// Whom a control transfer's setup stage addresses, on device `address`.
pub open spec fn recipient_clause(f: SetupFields, address: u8) -> Seq<char> {
    match recipient_of(f.type_fields.0 % 32) {
        Recipient::Device => "device "@ + dec(address as nat),
        Recipient::Interface => "interface "@ + dec(address as nat) + "."@ + dec(f.index as nat),
        Recipient::Endpoint => "endpoint "@ + dec(address as nat) + "."@ + dec(
            (f.index % 128) as nat,
        ) + (if (f.index / 128) % 2 == 0 { " OUT"@ } else { " IN"@ }),
        _ => "device "@ + dec(address as nat) + ", index "@ + dec(f.index as nat),
    }
}

/// How many bytes a control transfer moved, against how many were asked.
pub open spec fn length_clause(f: SetupFields, data_size: nat) -> Seq<char> {
    let action = if f.type_fields.0 / 128 == 0 { "writing"@ } else { "reading"@ };
    if f.length == 0 && data_size == 0 {
        Seq::empty()
    } else if data_size == f.length {
        ", "@ + action + " "@ + dec(f.length as nat) + " bytes"@
    } else {
        ", "@ + action + " "@ + dec(data_size) + " of "@ + dec(f.length as nat)
            + " requested bytes"@
    }
}

/// The summary line of a control transfer on device `address` whose setup
/// stage held `f` and whose data stage moved `data_size` bytes.
pub open spec fn control_summary(f: SetupFields, address: u8, data_size: nat) -> Seq<char> {
    action_clause(f) + " for "@ + recipient_clause(f, address) + length_clause(f, data_size)
}

pub fn packet_summary_text(packet: &[u8]) -> (r: String)
    ensures
        r@ == packet_summary(packet@),
{
    let pid = PID::from_byte(crate::fields::read_byte(packet, 0));
    let mut s = text(pid.name());
    s.append(" packet");
    match PacketFields::from_packet(packet) {
        PacketFields::SOF(sof) => {
            s.append(" with frame number ");
            push_dec(&mut s, sof.frame_number() as u128);
            s.append(", CRC ");
            push_hex(&mut s, sof.crc() as u64, 2, false);
        },
        PacketFields::Token(token) => {
            s.append(" on ");
            push_dec(&mut s, token.device_address() as u128);
            s.append(".");
            push_dec(&mut s, token.endpoint_number() as u128);
            s.append(", CRC ");
            push_hex(&mut s, token.crc() as u64, 2, false);
        },
        PacketFields::Data(data) => {
            let len = packet.len();
            s.append(" with ");
            push_dec(&mut s, if len >= 3 { (len - 3) as u128 } else { 0 });
            s.append(" data bytes and CRC ");
            push_hex(&mut s, data.crc as u64, 4, false);
        },
        PacketFields::Plain => {},
    }
    s.append(": ");
    s.append("[");
    let ghost prefix = pid_name(pid_of(byte_at(packet@, 0))) + " packet"@ + fields_text(
        packet_fields(packet@),
        packet@.len(),
    ) + ": "@ + "["@;
    assert(s@ =~= prefix + bytes_list(packet@.subrange(0, 0)));
    let mut i: usize = 0;
    while i < packet.len()
        invariant
            0 <= i <= packet@.len(),
            s@ == prefix + bytes_list(packet@.subrange(0, i as int)),
        decreases packet@.len() - i,
    {
        if i > 0 {
            s.append(", ");
        }
        push_hex(&mut s, packet[i] as u64, 2, true);
        proof {
            let sub = packet@.subrange(0, i + 1);
            assert(sub.drop_last() =~= packet@.subrange(0, i as int));
            assert(s@ =~= prefix + bytes_list(sub));
        }
        i = i + 1;
    }
    s.append("]");
    assert(packet@.subrange(0, packet@.len() as int) =~= packet@);
    assert(s@ =~= packet_summary(packet@));
    s
}

pub fn transaction_summary_text(pid: PID, count: u64, payload: Option<u64>) -> (r: String)
    ensures
        r@ == transaction_summary(
            pid,
            count as nat,
            match payload {
                Option::Some(p) => Option::Some(p as nat),
                Option::None => Option::None,
            },
        ),
{
    if pid == PID::SOF {
        let mut s = String::new();
        push_dec(&mut s, count as u128);
        s.append(" SOF packets");
        assert(s@ =~= dec(count as nat) + " SOF packets"@);
        s
    } else {
        let mut s = text(pid.name());
        s.append(" transaction, ");
        push_dec(&mut s, count as u128);
        s.append(" packets");
        match payload {
            Option::Some(size) => {
                s.append(" with ");
                push_dec(&mut s, size as u128);
                s.append(" data bytes");
                assert(s@ =~= pid_name(pid) + " transaction, "@ + dec(count as nat) + " packets"@
                    + " with "@ + dec(size as nat) + " data bytes"@);
            },
            Option::None => {
                assert(s@ =~= pid_name(pid) + " transaction, "@ + dec(count as nat) + " packets"@);
            },
        }
        s
    }
}

pub fn transfer_end_text(t: EndpointType, ep: Endpoint) -> (r: String)
    ensures
        r@ == transfer_end_summary(t, ep),
{
    let mut s = text("End of ");
    match t {
        EndpointType::Invalid => s.append("invalid groups"),
        EndpointType::Framing => s.append("SOF groups"),
        EndpointType::Control => {
            s.append("control transfer on device ");
            push_dec(&mut s, ep.device_address as u128);
        },
        EndpointType::Normal => {
            s.append("bulk transfer on endpoint ");
            push_dec(&mut s, ep.device_address as u128);
            s.append(".");
            push_dec(&mut s, ep.endpoint_number as u128);
        },
    }
    s
}

pub fn transfer_text(t: EndpointType, ep: Endpoint, count: u64) -> (r: String)
    ensures
        r@ == transfer_summary(t, ep, count as nat),
{
    match t {
        EndpointType::Invalid => {
            let mut s = String::new();
            push_dec(&mut s, count as u128);
            s.append(" invalid groups");
            s
        },
        EndpointType::Framing => {
            let mut s = String::new();
            push_dec(&mut s, count as u128);
            s.append(" SOF groups");
            s
        },
        _ => {
            let mut s = text("Bulk transfer with ");
            push_dec(&mut s, count as u128);
            s.append(" transactions on endpoint ");
            push_dec(&mut s, ep.device_address as u128);
            s.append(".");
            push_dec(&mut s, ep.endpoint_number as u128);
            s
        },
    }
}

fn action_text(fields: &SetupFields) -> (r: String)
    ensures
        r@ == action_clause(*fields),
{
    let request_type = fields.type_fields.request_type();
    if request_type == RequestType::Standard {
        StandardRequest::from_u8(fields.request).description(fields)
    } else {
        let mut a = text(request_type.name());
        a.append(" request #");
        push_dec(&mut a, fields.request as u128);
        a.append(", index ");
        push_dec(&mut a, fields.index as u128);
        a.append(", value ");
        push_dec(&mut a, fields.value as u128);
        assert(a@ =~= action_clause(*fields));
        a
    }
}

fn push_recipient(s: &mut String, fields: &SetupFields, address: u8)
    ensures
        final(s)@ == old(s)@ + recipient_clause(*fields, address),
{
    match fields.type_fields.recipient() {
        Recipient::Device => {
            s.append("device ");
            push_dec(s, address as u128);
        },
        Recipient::Interface => {
            s.append("interface ");
            push_dec(s, address as u128);
            s.append(".");
            push_dec(s, fields.index as u128);
        },
        Recipient::Endpoint => {
            s.append("endpoint ");
            push_dec(s, address as u128);
            s.append(".");
            push_dec(s, (fields.index % 128) as u128);
            if (fields.index / 128) % 2 == 0 {
                s.append(" OUT");
            } else {
                s.append(" IN");
            }
        },
        _ => {
            s.append("device ");
            push_dec(s, address as u128);
            s.append(", index ");
            push_dec(s, fields.index as u128);
        },
    }
    assert(final(s)@ =~= old(s)@ + recipient_clause(*fields, address));
}

fn push_length(s: &mut String, fields: &SetupFields, data_size: u128)
    ensures
        final(s)@ == old(s)@ + length_clause(*fields, data_size as nat),
{
    let action = if fields.type_fields.direction() == Direction::In {
        "reading"
    } else {
        "writing"
    };
    let length = fields.length;
    if length == 0 && data_size == 0 {
    } else if data_size == length as u128 {
        s.append(", ");
        s.append(action);
        s.append(" ");
        push_dec(s, length as u128);
        s.append(" bytes");
    } else {
        s.append(", ");
        s.append(action);
        s.append(" ");
        push_dec(s, data_size);
        s.append(" of ");
        push_dec(s, length as u128);
        s.append(" requested bytes");
    }
    assert(final(s)@ =~= old(s)@ + length_clause(*fields, data_size as nat));
}

pub fn control_text(fields: &SetupFields, address: u8, data_size: u128) -> (r: String)
    ensures
        r@ == control_summary(*fields, address, data_size as nat),
{
    let mut s = action_text(fields);
    s.append(" for ");
    push_recipient(&mut s, fields, address);
    push_length(&mut s, fields, data_size);
    assert(s@ =~= control_summary(*fields, address, data_size as nat));
    s
}

} // verus!
