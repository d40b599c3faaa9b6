use usb_capture::capture::{Capture, Item};
use usb_capture::fields::{RequestTypeFields, Recipient, RequestType, Direction, SetupFields, TransferIndexEntry};
use usb_capture::request::{StandardRequest, DescriptorType, StandardFeature};
use usb_capture::fsm::{TransactionState, DecodeStatus};
use usb_capture::pid::PID;
use usb_capture::report::{fmt_count, fmt_size, fmt_index};
use usb_capture::index::MonotonicIndex;

const SETUP_2_0: [u8; 3] = [0x2d, 0x02, 0xa8];
const IN_2_0: [u8; 3] = [0x69, 0x02, 0xa8];
const OUT_2_0: [u8; 3] = [0xe1, 0x02, 0xa8];
const ACK: [u8; 1] = [0xd2];
const NAK: [u8; 1] = [0x5a];
const SOF: [u8; 3] = [0xa5, 0xde, 0x1e];

fn get_descriptor_setup() -> Vec<u8> {
    vec![0xc3, 0x80, 0x06, 0x00, 0x01, 0x00, 0x00, 0x12, 0x00, 0xaa, 0xd5]
}

fn data1(n: usize) -> Vec<u8> {
    let mut v = vec![0x4b];
    for i in 0..n {
        v.push(i as u8);
    }
    v.push(0x12);
    v.push(0x34);
    v
}

fn feed(c: &mut Capture, packets: &[Vec<u8>]) {
    for p in packets {
        c.handle_raw_packet(p);
    }
}

#[test]
fn control_get_descriptor_transfer() {
    let mut c = Capture::new();
    feed(&mut c, &[
        SETUP_2_0.to_vec(), get_descriptor_setup(), ACK.to_vec(),
        IN_2_0.to_vec(), data1(18), ACK.to_vec(),
        OUT_2_0.to_vec(), data1(0), ACK.to_vec(),
    ]);
    // An uninterrupted transfer has one top-level item covering its start
    // and its end.
    assert_eq!(c.item_count(&None), 1);
    let transfer = c.get_item(&None, 0);
    assert_eq!(transfer, Item::Transfer(0));
    assert_eq!(c.item_count(&Some(transfer)), 3);
    assert_eq!(
        c.get_summary(&transfer),
        "Getting device descriptor #0 for device 2, reading 18 bytes"
    );
    let t1 = c.get_item(&Some(transfer), 1);
    assert_eq!(t1, Item::Transaction(0, 1));
    assert_eq!(c.get_summary(&t1), "IN transaction, 3 packets with 18 data bytes");
    assert_eq!(c.item_count(&Some(t1)), 3);
    let p = c.get_item(&Some(t1), 0);
    assert_eq!(p, Item::Packet(0, 1, 3));
    assert_eq!(c.get_summary(&p), "IN packet on 2.0, CRC 15: [69, 02, a8]");
    assert_eq!(c.item_count(&Some(p)), 0);
    let t0 = c.get_item(&Some(transfer), 0);
    assert_eq!(c.get_summary(&t0), "SETUP transaction, 3 packets with 8 data bytes");
    // The end entry has no children.
    assert_eq!(c.item_count(&Some(Item::Transfer(1))), 0);
    assert_eq!(c.get_summary(&Item::Transfer(1)), "End of control transfer on device 2");
}

#[test]
fn control_transfer_with_retry() {
    let mut c = Capture::new();
    feed(&mut c, &[
        SETUP_2_0.to_vec(), get_descriptor_setup(), ACK.to_vec(),
        IN_2_0.to_vec(), NAK.to_vec(),
        IN_2_0.to_vec(), data1(18), ACK.to_vec(),
        OUT_2_0.to_vec(), data1(0), ACK.to_vec(),
    ]);
    assert_eq!(c.item_count(&None), 1);
    let transfer = Item::Transfer(0);
    assert_eq!(c.item_count(&Some(transfer)), 4);
    assert_eq!(c.get_item(&Some(transfer), 1), Item::Transaction(0, 1));
    assert_eq!(c.get_summary(&Item::Transaction(0, 1)), "IN transaction, 2 packets");
    assert_eq!(
        c.get_summary(&transfer),
        "Getting device descriptor #0 for device 2, reading 18 bytes"
    );
    assert_eq!(c.get_summary(&Item::Transfer(1)), "End of control transfer on device 2");
}

#[test]
fn sof_packets_group_into_one_framing_transfer() {
    let mut c = Capture::new();
    for _ in 0..10 {
        c.handle_raw_packet(&SOF);
    }
    // The SOF run is still open: nothing is recorded yet.
    assert_eq!(c.item_count(&None), 0);
    feed(&mut c, &[SETUP_2_0.to_vec(), get_descriptor_setup(), ACK.to_vec()]);
    assert_eq!(c.item_count(&None), 2);
    let transfer = c.get_item(&None, 0);
    assert_eq!(c.get_summary(&transfer), "1 SOF groups");
    assert_eq!(c.item_count(&Some(transfer)), 1);
    let group = c.get_item(&Some(transfer), 0);
    assert_eq!(c.get_summary(&group), "10 SOF packets");
    assert_eq!(c.item_count(&Some(group)), 10);
    assert_eq!(c.get_connectors(&transfer), " ○──");
    // The framing transfer is still in progress at the next entry.
    assert_eq!(c.get_connectors(&group), " ├────");
    assert_eq!(
        c.get_summary(&Item::Packet(0, 0, 0)),
        "SOF packet with frame number 1758, CRC 03: [a5, de, 1e]"
    );
}

#[test]
fn connectors_of_control_transfer() {
    let mut c = Capture::new();
    feed(&mut c, &[
        SETUP_2_0.to_vec(), get_descriptor_setup(), ACK.to_vec(),
        IN_2_0.to_vec(), data1(18), ACK.to_vec(),
        OUT_2_0.to_vec(), data1(0), ACK.to_vec(),
    ]);
    assert_eq!(c.get_connectors(&Item::Transfer(0)), "  ○─");
    assert_eq!(c.get_connectors(&Item::Transfer(1)), "  └──□ ");
    assert_eq!(c.get_connectors(&Item::Transaction(0, 0)), "  ├───");
    assert_eq!(c.get_connectors(&Item::Transaction(0, 2)), "  └───");
    assert_eq!(c.get_connectors(&Item::Packet(0, 0, 0)), "  │    ├──");
    assert_eq!(c.get_connectors(&Item::Packet(0, 0, 2)), "  │    └──");
    assert_eq!(c.get_connectors(&Item::Packet(0, 2, 8)), "       └──");
}

#[test]
fn invalid_packet_becomes_invalid_group() {
    let mut c = Capture::new();
    c.handle_raw_packet(&ACK);
    assert_eq!(c.item_count(&None), 1);
    assert_eq!(c.get_summary(&Item::Transfer(0)), "1 invalid groups");
    assert_eq!(c.get_summary(&Item::Transfer(1)), "End of invalid groups");
    assert_eq!(c.item_count(&Some(Item::Transfer(0))), 1);
    assert_eq!(c.item_count(&Some(Item::Transfer(1))), 0);
    assert_eq!(c.get_summary(&Item::Transaction(0, 0)), "ACK transaction, 1 packets");
    assert_eq!(c.get_summary(&Item::Packet(0, 0, 0)), "ACK packet: [d2]");
}

#[test]
fn bulk_transfer_summary() {
    let mut c = Capture::new();
    let out_2_1 = [0xe1, 0x82, 0x18];
    feed(&mut c, &[
        out_2_1.to_vec(), data1(4), ACK.to_vec(),
        out_2_1.to_vec(), data1(2), ACK.to_vec(),
        SETUP_2_0.to_vec(),
    ]);
    assert_eq!(c.item_count(&None), 1);
    assert_eq!(c.get_summary(&Item::Transfer(0)), "Bulk transfer with 2 transactions on endpoint 2.1");
    assert_eq!(c.get_summary(&Item::Transaction(0, 0)), "OUT transaction, 3 packets with 4 data bytes");
    assert_eq!(
        c.get_summary(&Item::Packet(0, 0, 1)),
        "DATA1 packet with 4 data bytes and CRC 3412: [4b, 00, 01, 02, 03, 12, 34]"
    );
}

#[test]
fn item_count_zero_only_for_end_entries() {
    let mut c = Capture::new();
    c.handle_raw_packet(&NAK);
    c.handle_raw_packet(&ACK);
    for u in 0..4u64 {
        let n = c.item_count(&Some(Item::Transfer(u)));
        assert_eq!(n == 0, u % 2 == 1);
    }
}

#[test]
fn request_type_fields() {
    let f = RequestTypeFields(0x80);
    assert_eq!(f.recipient(), Recipient::Device);
    assert_eq!(f.request_type(), RequestType::Standard);
    assert_eq!(f.direction(), Direction::In);
    let f = RequestTypeFields(0x41);
    assert_eq!(f.recipient(), Recipient::Interface);
    assert_eq!(f.request_type(), RequestType::Vendor);
    assert_eq!(f.direction(), Direction::Out);
    let f = RequestTypeFields(0x7f);
    assert_eq!(f.recipient(), Recipient::Reserved);
    assert_eq!(f.request_type(), RequestType::Reserved);
    assert_eq!(RequestTypeFields(0x22).recipient(), Recipient::Endpoint);
    assert_eq!(RequestTypeFields(0x23).recipient(), Recipient::Other);
}

fn setup(request: u8, value: u16, index: u16) -> SetupFields {
    SetupFields { type_fields: RequestTypeFields(0), request, value, index, length: 0 }
}

#[test]
fn standard_request_descriptions() {
    assert_eq!(StandardRequest::GetStatus.description(&setup(0, 0, 0)), "Getting status");
    assert_eq!(StandardRequest::SetFeature.description(&setup(3, 1, 0)), "Setting device remote wakeup");
    assert_eq!(StandardRequest::ClearFeature.description(&setup(1, 0, 0)), "Clearing endpoint halt");
    assert_eq!(StandardRequest::ClearFeature.description(&setup(1, 9, 0)), "Clearing unknown standard feature");
    assert_eq!(StandardRequest::SetAddress.description(&setup(5, 12, 0)), "Setting address to 12");
    assert_eq!(
        StandardRequest::GetDescriptor.description(&setup(6, 0x0302, 0x0409)),
        "Getting string descriptor #2, language 0x0409"
    );
    assert_eq!(
        StandardRequest::GetDescriptor.description(&setup(6, 0x0300, 0)),
        "Getting string descriptor #0"
    );
    assert_eq!(
        StandardRequest::SetDescriptor.description(&setup(7, 0x0200, 0)),
        "Setting configuration descriptor #0"
    );
    assert_eq!(StandardRequest::GetConfiguration.description(&setup(8, 0, 0)), "Getting configuration");
    assert_eq!(StandardRequest::SetConfiguration.description(&setup(9, 1, 0)), "Setting configuration 1");
    assert_eq!(StandardRequest::GetInterface.description(&setup(10, 0, 3)), "Getting interface 3");
    assert_eq!(StandardRequest::SetInterface.description(&setup(11, 2, 1)), "Setting interface 1 to 2");
    assert_eq!(StandardRequest::SynchFrame.description(&setup(12, 0, 0)), "Synchronising frame");
    assert_eq!(StandardRequest::Unknown.description(&setup(99, 0, 0)), "Unknown standard request");
    assert_eq!(StandardRequest::from_u8(2), StandardRequest::Unknown);
    assert_eq!(StandardRequest::from_u8(6), StandardRequest::GetDescriptor);
}

#[test]
fn descriptor_and_feature_names() {
    assert_eq!(DescriptorType::from_u8(1).description(), "device");
    assert_eq!(DescriptorType::from_u8(6).description(), "device qualifier");
    assert_eq!(DescriptorType::from_u8(0).description(), "unknown");
    assert_eq!(DescriptorType::from_u8(200).description(), "unknown");
    assert_eq!(StandardFeature::from_u16(2).description(), "test mode");
    assert_eq!(StandardFeature::from_u16(3).description(), "unknown standard feature");
}

#[test]
fn transaction_status_table() {
    let mut s = TransactionState::new();
    assert_eq!(s.status(PID::SETUP), DecodeStatus::NEW);
    assert_eq!(s.status(PID::SOF), DecodeStatus::NEW);
    assert_eq!(s.status(PID::ACK), DecodeStatus::INVALID);
    s.first = PID::SETUP;
    s.last = PID::SETUP;
    assert_eq!(s.status(PID::DATA0), DecodeStatus::CONTINUE);
    assert_eq!(s.status(PID::DATA1), DecodeStatus::INVALID);
    s.last = PID::DATA0;
    assert_eq!(s.status(PID::ACK), DecodeStatus::DONE);
    s.first = PID::IN;
    s.last = PID::IN;
    assert_eq!(s.status(PID::NAK), DecodeStatus::DONE);
    assert_eq!(s.status(PID::STALL), DecodeStatus::DONE);
    s.first = PID::OUT;
    s.last = PID::DATA1;
    assert_eq!(s.status(PID::NAK), DecodeStatus::DONE);
    assert_eq!(s.status(PID::DATA2), DecodeStatus::INVALID);
}

#[test]
fn transfer_index_entry_packing() {
    let mut e = TransferIndexEntry::new(12345, 2047, true);
    assert_eq!(e.transfer_id(), 12345);
    assert_eq!(e.endpoint_id(), 2047);
    assert!(e.is_start());
    e.set_is_start(false);
    assert!(!e.is_start());
    assert_eq!(e.transfer_id(), 12345);
    assert_eq!(e.endpoint_id(), 2047);
    assert_eq!(TransferIndexEntry::new(1, 1, false).0, 1 | (1 << 52));
    assert_eq!(TransferIndexEntry::new(0, 0, true).0, 1 << 63);
}

#[test]
fn storage_report_lines() {
    assert_eq!(fmt_count(1234567), "1,234,567");
    assert_eq!(fmt_count(999), "999");
    assert_eq!(fmt_size(1024), "1 KiB");
    let mut idx = MonotonicIndex::new();
    idx.push(3);
    idx.push(5);
    assert_eq!(fmt_index(&idx), "2 values in 2 entries, 16 B");
}

#[test]
fn storage_summary_counts() {
    let mut c = Capture::new();
    feed(&mut c, &[
        SETUP_2_0.to_vec(), get_descriptor_setup(), ACK.to_vec(),
        IN_2_0.to_vec(), data1(18), ACK.to_vec(),
        OUT_2_0.to_vec(), data1(0), ACK.to_vec(),
    ]);
    let s = c.storage_summary();
    assert_eq!(s.data_size, 3 + 11 + 1 + 3 + 21 + 1 + 3 + 3 + 1);
    assert_eq!(s.packet_index, "9 values in 9 entries, 72 B");
    assert_eq!(s.transaction_index, "3 values in 3 entries, 24 B");
    assert_eq!(s.transfer_index, "2 entries, 16 B");
    assert_eq!(s.endpoint_states, "6 entries, 6 B");
    assert_eq!(s.endpoint_transactions, "3 values in 3 entries, 24 B");
    assert_eq!(s.endpoint_transfers, "1 values in 1 entries, 8 B");
}

fn mixed_capture() -> Capture {
    let mut c = Capture::new();
    let out_2_1 = [0xe1, 0x82, 0x18];
    feed(&mut c, &[
        SOF.to_vec(), SOF.to_vec(),
        SETUP_2_0.to_vec(), get_descriptor_setup(), ACK.to_vec(),
        out_2_1.to_vec(), data1(4), ACK.to_vec(),
        IN_2_0.to_vec(), NAK.to_vec(),
        SOF.to_vec(),
        IN_2_0.to_vec(), data1(18), ACK.to_vec(),
        ACK.to_vec(),
        OUT_2_0.to_vec(), data1(0), ACK.to_vec(),
        out_2_1.to_vec(), data1(2), ACK.to_vec(),
        SETUP_2_0.to_vec(), get_descriptor_setup(), ACK.to_vec(),
    ]);
    c
}

#[test]
fn every_packet_in_one_transaction_and_one_transfer() {
    let c = mixed_capture();
    let mut seen_packets: Vec<u64> = Vec::new();
    let mut seen_transactions: Vec<u64> = Vec::new();
    for k in 0..c.item_count(&None) {
        let item = c.get_item(&None, k);
        for i in 0..c.item_count(&Some(item)) {
            let t = c.get_item(&Some(item), i);
            if let Item::Transaction(_, v) = t {
                seen_transactions.push(v);
                for p in 0..c.item_count(&Some(t)) {
                    if let Item::Packet(_, _, w) = c.get_item(&Some(t), p) {
                        seen_packets.push(w);
                    }
                }
            }
        }
    }
    seen_transactions.sort();
    let expected: Vec<u64> = (0..seen_transactions.len() as u64).collect();
    assert_eq!(seen_transactions, expected);
    seen_packets.sort();
    let expected: Vec<u64> = (0..24).collect();
    assert_eq!(seen_packets, expected);
}

#[test]
fn transactions_of_a_transfer_increase() {
    let c = mixed_capture();
    let top = c.item_count(&None);
    assert!(top >= 3);
    let mut last_entry = 0;
    for k in 0..top {
        let item = c.get_item(&None, k);
        if let Item::Transfer(u) = item {
            assert!(k == 0 || u >= last_entry);
            last_entry = u;
            let n = c.item_count(&Some(item));
            let mut prev: Option<u64> = None;
            for i in 0..n {
                if let Item::Transaction(_, v) = c.get_item(&Some(item), i) {
                    if let Some(p) = prev {
                        assert!(v > p);
                    }
                    prev = Some(v);
                }
            }
        }
    }
}

#[test]
fn connectors_have_one_column_per_endpoint() {
    let c = mixed_capture();
    // Endpoints: invalid, framing, 2.0 and 2.1.
    let row = c.get_connectors(&Item::Transfer(0));
    assert_eq!(row.chars().count(), 4 + 1);
}
