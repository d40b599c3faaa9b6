use vstd::prelude::*;
use crate::pid::{PID, pid_of};
use crate::fields::{
    PacketFields, Endpoint, TransferIndexEntry, SetupFields, Direction, packet_fields,
    setup_fields, byte_at, TRANSFER_ID_LIMIT, ENDPOINT_ID_LIMIT,
};
use crate::index::{MonotonicIndex, non_decreasing, index_range, get_index_range};
use crate::summary::{
    packet_summary, transaction_summary, transfer_end_summary, transfer_summary, control_summary,
    data_bytes, packet_summary_text, transaction_summary_text, transfer_end_text, transfer_text,
    control_text,
};
use crate::connectors::{
    transfer_glyph, transaction_glyph, packet_glyph, transfer_glyph_str, transaction_glyph_str,
    packet_glyph_str,
};
use crate::report::{fmt_count, fmt_size, fmt_index, fmt_vec, grouped, size_text};
use std::ops::Range;
use crate::fsm::{
    DecodeStatus, TransactionState, EndpointType, EndpointData, EndpointState,
    transaction_status, endpoint_status, endpoint_type_of, endpoint_state_of, state_byte,
    next_endpoint_state, FRAMING_NUMBER, INVALID_NUMBER,
};

verus! {

pub const USB_MAX_DEVICES: usize = 128;
pub const USB_MAX_ENDPOINTS: usize = 16;
/// Endpoint table slots: one per device address and endpoint number.
pub const ENDPOINT_SLOTS: usize = 2048;
/// The number of packets that one capture can hold. Each packet adds at
/// most three transfer entries, so transfer ids stay below their 52-bit
/// field.
pub const PACKET_LIMIT: u64 = 0x4_0000_0000_0000;
/// The number of packet bytes that one capture can hold.
pub const DATA_LIMIT: u64 = 0x1_0000_0000_0000;

/// A child of the hierarchy: a transfer entry, a transaction within it, or
/// a packet within that.
#[derive(Copy, Clone, Debug, PartialEq, Eq, Structural)]
pub enum Item {
    Transfer(u64),
    Transaction(u64, u64),
    Packet(u64, u64, u64),
}

/// The endpoint id, transfer id and start flag of an entry.
pub open spec fn entry_fields(e: TransferIndexEntry) -> (u64, u64, bool) {
    (e.spec_endpoint_id(), e.spec_transfer_id(), e.spec_is_start())
}

/// `s2` is `s0` with an entry of fields `a` appended if `first`, then one
/// of fields `b`.
proof fn lemma_entries_pushed(
    s0: Seq<TransferIndexEntry>,
    s1: Seq<TransferIndexEntry>,
    s2: Seq<TransferIndexEntry>,
    first: bool,
    a: (u64, u64, bool),
    b: (u64, u64, bool),
) -> (x: Seq<(u64, u64, bool)>)
    requires
        first ==> s1.drop_last() == s0 && s1.len() == s0.len() + 1 && entry_fields(s1.last()) == a,
        !first ==> s1 == s0,
        s2.drop_last() == s1,
        s2.len() == s1.len() + 1,
        entry_fields(s2.last()) == b,
    ensures
        x == (if first { seq![a, b] } else { seq![b] }),
        s2.len() == s0.len() + x.len(),
        forall|i: int| 0 <= i < x.len() ==> #[trigger] entry_fields(s2[s0.len() + i]) == x[i],
{
    let x = if first { seq![a, b] } else { seq![b] };
    if first {
        assert(s2[s0.len() as int] == s1[s0.len() as int]);
    }
    x
}

/// `s2` is `s1` with an entry of fields `b` appended, where `s1` is `s0`
/// followed by entries of fields `y`.
proof fn lemma_entry_pushed(
    s0: Seq<TransferIndexEntry>,
    s1: Seq<TransferIndexEntry>,
    s2: Seq<TransferIndexEntry>,
    y: Seq<(u64, u64, bool)>,
    b: (u64, u64, bool),
) -> (x: Seq<(u64, u64, bool)>)
    requires
        s1.len() == s0.len() + y.len(),
        forall|i: int| 0 <= i < y.len() ==> #[trigger] entry_fields(s1[s0.len() + i]) == y[i],
        s2.drop_last() == s1,
        s2.len() == s1.len() + 1,
        entry_fields(s2.last()) == b,
    ensures
        x == y.push(b),
        s2.len() == s0.len() + x.len(),
        forall|i: int| 0 <= i < x.len() ==> #[trigger] entry_fields(s2[s0.len() + i]) == x[i],
{
    let x = y.push(b);
    assert forall|i: int| 0 <= i < x.len() implies #[trigger] entry_fields(s2[s0.len() + i]) == x[i] by {
        if i < y.len() {
            assert(s2[s0.len() + i] == s1[s0.len() + i]);
        }
    }
    x
}

/// Snapshot `k` of the state bytes `states` cut at the offsets `offsets`.
pub open spec fn snap(offsets: Seq<u64>, states: Seq<u8>, k: int) -> Seq<u8> {
    let r = index_range(offsets, states.len() as u64, k);
    states.subrange(r.0 as int, r.1 as int)
}

/// The snapshot of each transfer entry shows the entry's own endpoint as
/// starting (a start entry) or ending (an end entry).
#[verifier::opaque]
pub open spec fn marked(s: Seq<TransferIndexEntry>, offsets: Seq<u64>, states: Seq<u8>) -> bool {
    forall|k: int| 0 <= k < s.len() ==> {
        let e = #[trigger] s[k];
        let st = snap(offsets, states, k);
        &&& e.spec_endpoint_id() < st.len()
        &&& endpoint_state_of(st[e.spec_endpoint_id() as int]) == if e.spec_is_start() {
            EndpointState::Starting
        } else {
            EndpointState::Ending
        }
    }
}

/// Appending a snapshot leaves the earlier ones as they were.
proof fn lemma_snap_push(offsets: Seq<u64>, states: Seq<u8>, t: Seq<u8>, k: int)
    requires
        non_decreasing(offsets),
        forall|j: int| 0 <= j < offsets.len() ==> #[trigger] offsets[j] <= states.len(),
        states.len() + t.len() <= u64::MAX,
        0 <= k <= offsets.len(),
    ensures
        k < offsets.len() ==> snap(offsets.push(states.len() as u64), states + t, k) == snap(
            offsets,
            states,
            k,
        ),
        k == offsets.len() ==> snap(offsets.push(states.len() as u64), states + t, k) == t,
{
    let o2 = offsets.push(states.len() as u64);
    let s2 = states + t;
    if k < offsets.len() {
        let r = index_range(offsets, states.len() as u64, k);
        let r2 = index_range(o2, s2.len() as u64, k);
        assert(r == r2);
        assert(r.0 <= r.1 <= states.len()) by {
            if k + 1 < offsets.len() {
                assert(offsets[k] <= offsets[k + 1]);
            }
        }
        assert(s2.subrange(r.0 as int, r.1 as int) =~= states.subrange(r.0 as int, r.1 as int));
    } else {
        assert(s2.subrange(states.len() as int, s2.len() as int) =~= t);
    }
}

/// `a` begins with `b`.
pub open spec fn extends<T>(a: Seq<T>, b: Seq<T>) -> bool {
    &&& b.len() <= a.len()
    &&& forall|i: int| 0 <= i < b.len() ==> #[trigger] a[i] == b[i]
}

/// Each value is larger than the one before it.
pub open spec fn strictly_increasing(s: Seq<u64>) -> bool {
    forall|i: int, j: int| 0 <= i < j < s.len() ==> s[i] < s[j]
}

/// What holds of one endpoint's record while `n_transactions` transactions
/// are recorded and `n_entries` transfer entries exist.
pub open spec fn endpoint_ok(d: EndpointData, n_transactions: nat, n_entries: nat) -> bool {
    &&& d.transaction_ids.wf()
    &&& d.transfer_index.wf()
    &&& strictly_increasing(d.transaction_ids@)
    &&& strictly_increasing(d.transfer_index@)
    &&& forall|j: int| 0 <= j < d.transaction_ids@.len() ==> d.transaction_ids@[j] < n_transactions
    &&& d.transaction_ids@.len() <= n_transactions
    &&& forall|j: int| 0 <= j < d.transfer_index@.len() ==>
        d.transfer_index@[j] < d.transaction_ids@.len()
    &&& d.transfer_index@.len() <= n_entries
    &&& d.transaction_count <= d.transaction_ids@.len()
    &&& d.transfer_index@.len() == 0 ==> d.transaction_ids@.len() == 0 && d.transaction_count == 0
        && d.last == PID::Malformed
    &&& d.transfer_index@.len() > 0 ==> d.transfer_index@[0] == 0
    &&& d.last != PID::Malformed ==> d.transaction_count > 0
}

/// Transaction `v` is on the list of some endpoint record in `d`.
pub open spec fn owned(d: Seq<EndpointData>, v: int) -> bool {
    exists|i: int, j: int|
        0 <= i < d.len() && 0 <= j < d[i].transaction_ids@.len() && #[trigger] d[i].transaction_ids@[j]
            == v
}

/// Each of the first `n` transactions is on the list of an endpoint record
/// in `d`, and no transaction is on the lists of two records.
#[verifier::opaque]
pub open spec fn owns_all(d: Seq<EndpointData>, n: nat) -> bool {
    &&& forall|v: int| 0 <= v < n ==> #[trigger] owned(d, v)
    &&& forall|i1: int, j1: int, i2: int, j2: int|
        0 <= i1 < d.len() && 0 <= i2 < d.len() && i1 != i2 && 0 <= j1 < d[i1].transaction_ids@.len()
            && 0 <= j2 < d[i2].transaction_ids@.len() ==> #[trigger] d[i1].transaction_ids@[j1]
            != #[trigger] d[i2].transaction_ids@[j2]
}

/// Records whose transaction lists are those of `d1` own what `d1` owns.
proof fn lemma_owns_same_ids(d1: Seq<EndpointData>, d2: Seq<EndpointData>, n: nat)
    requires
        owns_all(d1, n),
        d1.len() == d2.len(),
        forall|i: int| 0 <= i < d1.len() ==> #[trigger] d2[i].transaction_ids@ == d1[i].transaction_ids@,
    ensures
        owns_all(d2, n),
{
    reveal(owns_all);
    assert forall|v: int| 0 <= v < n implies #[trigger] owned(d2, v) by {
        assert(owned(d1, v));
        let (i, j) = choose|i: int, j: int|
            0 <= i < d1.len() && 0 <= j < d1[i].transaction_ids@.len()
                && #[trigger] d1[i].transaction_ids@[j] == v;
        assert(d2[i].transaction_ids@[j] == v);
    }
}

/// Appending transaction `n` to the list of record `ep` makes the records
/// own the first `n + 1` transactions.
proof fn lemma_owns_push(d1: Seq<EndpointData>, d2: Seq<EndpointData>, n: nat, ep: int)
    requires
        owns_all(d1, n),
        d1.len() == d2.len(),
        0 <= ep < d1.len(),
        forall|i: int| 0 <= i < d1.len() && i != ep ==> #[trigger] d2[i].transaction_ids@
            == d1[i].transaction_ids@,
        d2[ep].transaction_ids@ == d1[ep].transaction_ids@.push(n as u64),
        n < PACKET_LIMIT,
        forall|i: int, j: int| 0 <= i < d1.len() && 0 <= j < d1[i].transaction_ids@.len() ==>
            #[trigger] d1[i].transaction_ids@[j] < n,
    ensures
        owns_all(d2, n + 1),
{
    reveal(owns_all);
    assert forall|v: int| 0 <= v < n + 1 implies #[trigger] owned(d2, v) by {
        if v == n {
            let j = d1[ep].transaction_ids@.len() as int;
            assert(d2[ep].transaction_ids@[j] == v);
        } else {
            assert(owned(d1, v));
            let (i, j) = choose|i: int, j: int|
                0 <= i < d1.len() && 0 <= j < d1[i].transaction_ids@.len()
                    && #[trigger] d1[i].transaction_ids@[j] == v;
            assert(d2[i].transaction_ids@[j] == v);
        }
    }
    assert forall|i1: int, j1: int, i2: int, j2: int|
        0 <= i1 < d2.len() && 0 <= i2 < d2.len() && i1 != i2 && 0 <= j1 < d2[i1].transaction_ids@.len()
            && 0 <= j2 < d2[i2].transaction_ids@.len() implies #[trigger] d2[i1].transaction_ids@[j1]
        != #[trigger] d2[i2].transaction_ids@[j2] by {
        if i1 != ep {
            assert(d2[i1].transaction_ids@ == d1[i1].transaction_ids@);
        }
        if i2 != ep {
            assert(d2[i2].transaction_ids@ == d1[i2].transaction_ids@);
        }
        if i1 != ep && i2 != ep {
            assert(d1[i1].transaction_ids@[j1] != d1[i2].transaction_ids@[j2]);
        } else if i1 == ep {
            if j1 < d1[ep].transaction_ids@.len() {
                assert(d2[i1].transaction_ids@[j1] == d1[i1].transaction_ids@[j1]);
                assert(d1[i1].transaction_ids@[j1] != d1[i2].transaction_ids@[j2]);
            } else {
                assert(d1[i2].transaction_ids@[j2] < n);
            }
        } else {
            if j2 < d1[ep].transaction_ids@.len() {
                assert(d2[i2].transaction_ids@[j2] == d1[i2].transaction_ids@[j2]);
                assert(d1[i1].transaction_ids@[j1] != d1[i2].transaction_ids@[j2]);
            } else {
                assert(d1[i1].transaction_ids@[j1] < n);
            }
        }
    }
}

/// A record with an empty list takes nothing from the others.
proof fn lemma_owns_new_record(d1: Seq<EndpointData>, d2: Seq<EndpointData>, n: nat)
    requires
        owns_all(d1, n),
        d2.len() == d1.len() + 1,
        d2.drop_last() == d1,
        d2.last().transaction_ids@.len() == 0,
    ensures
        owns_all(d2, n),
{
    reveal(owns_all);
    assert forall|v: int| 0 <= v < n implies #[trigger] owned(d2, v) by {
        assert(owned(d1, v));
        let (i, j) = choose|i: int, j: int|
            0 <= i < d1.len() && 0 <= j < d1[i].transaction_ids@.len()
                && #[trigger] d1[i].transaction_ids@[j] == v;
        assert(d2[i] == d1[i]);
        assert(d2[i].transaction_ids@[j] == v);
    }
    assert forall|i1: int, j1: int, i2: int, j2: int|
        0 <= i1 < d2.len() && 0 <= i2 < d2.len() && i1 != i2 && 0 <= j1 < d2[i1].transaction_ids@.len()
            && 0 <= j2 < d2[i2].transaction_ids@.len() implies #[trigger] d2[i1].transaction_ids@[j1]
        != #[trigger] d2[i2].transaction_ids@[j2] by {
        assert(d2[i1] == d1[i1]);
        assert(d2[i2] == d1[i2]);
    }
}

/// The position of the last entry for endpoint `e` among the first `m`
/// entries of `s`, or -1 where there is none.
pub open spec fn last_for(s: Seq<TransferIndexEntry>, e: u64, m: int) -> int
    decreases m,
{
    if m <= 0 {
        -1
    } else if s[m - 1].spec_endpoint_id() == e {
        m - 1
    } else {
        last_for(s, e, m - 1)
    }
}

/// Entry `k` follows the previous entry of its endpoint in the order the
/// transfer layer writes them: the first entry of an endpoint starts its
/// transfer 0, an end entry follows the start of the same transfer and
/// names the next one, and a start entry follows an end entry and starts
/// the transfer that it named.
pub open spec fn follows(s: Seq<TransferIndexEntry>, k: int) -> bool {
    let p = last_for(s, s[k].spec_endpoint_id(), k);
    if p < 0 {
        s[k].spec_is_start() && s[k].spec_transfer_id() == 0
    } else if s[p].spec_is_start() {
        !s[k].spec_is_start() && s[k].spec_transfer_id() == s[p].spec_transfer_id() + 1
    } else {
        s[k].spec_is_start() && s[k].spec_transfer_id() == s[p].spec_transfer_id()
    }
}

/// The last entry of endpoint `e` matches its record: a start entry for
/// its last transfer while one is open, else an end entry naming the next.
pub open spec fn tail_ok(s: Seq<TransferIndexEntry>, e: u64, d: EndpointData, strict: bool) -> bool {
    let k = last_for(s, e, s.len() as int);
    if k < 0 {
        d.transfer_index@.len() == 0 && d.transaction_count == 0
    } else if s[k].spec_is_start() {
        s[k].spec_transfer_id() + 1 == d.transfer_index@.len() && (strict ==> d.transaction_count
            > 0)
    } else {
        s[k].spec_transfer_id() == d.transfer_index@.len() && d.transaction_count == 0
    }
}

/// Every entry follows the previous one of its endpoint, and each
/// endpoint's last entry matches its record (but for the count of
/// endpoint `loose`, whose transfer has just been opened).
#[verifier::opaque]
pub open spec fn alternation_ok(s: Seq<TransferIndexEntry>, d: Seq<EndpointData>, loose: int) -> bool {
    &&& forall|k: int| 0 <= k < s.len() ==> #[trigger] follows(s, k)
    &&& forall|e: int| 0 <= e < d.len() ==> tail_ok(s, e as u64, #[trigger] d[e], e != loose)
}

proof fn lemma_last_for_push(s: Seq<TransferIndexEntry>, x: TransferIndexEntry, e: u64, k: int)
    requires
        k <= s.len(),
    ensures
        last_for(s.push(x), e, k) == last_for(s, e, k),
    decreases k,
{
    if k > 0 {
        assert(s.push(x)[k - 1] == s[k - 1]);
        lemma_last_for_push(s, x, e, k - 1);
    }
}

proof fn lemma_last_for_bound(s: Seq<TransferIndexEntry>, e: u64, k: int)
    ensures
        -1 <= last_for(s, e, k) < k || (k <= 0 && last_for(s, e, k) == -1),
        last_for(s, e, k) >= 0 ==> s[last_for(s, e, k)].spec_endpoint_id() == e,
    decreases k,
{
    if k > 0 {
        lemma_last_for_bound(s, e, k - 1);
    }
}

/// Appending `x` keeps every earlier entry's predecessor; `x` follows the
/// last entry of its endpoint.
proof fn lemma_follows_push(s: Seq<TransferIndexEntry>, x: TransferIndexEntry)
    requires
        forall|k: int| 0 <= k < s.len() ==> #[trigger] follows(s, k),
        follows(s.push(x), s.len() as int),
    ensures
        forall|k: int| 0 <= k < s.len() + 1 ==> #[trigger] follows(s.push(x), k),
{
    assert forall|k: int| 0 <= k < s.len() + 1 implies #[trigger] follows(s.push(x), k) by {
        if k < s.len() {
            assert(follows(s, k));
            assert(s.push(x)[k] == s[k]);
            lemma_last_for_push(s, x, s[k].spec_endpoint_id(), k);
            lemma_last_for_bound(s, s[k].spec_endpoint_id(), k);
            let p = last_for(s, s[k].spec_endpoint_id(), k);
            if p >= 0 {
                assert(s.push(x)[p] == s[p]);
            }
        }
    }
}

/// An endpoint with no entries has no entry last.
proof fn lemma_last_for_none(s: Seq<TransferIndexEntry>, e: u64, m: int)
    requires
        0 <= m <= s.len(),
        forall|k: int| 0 <= k < m ==> #[trigger] s[k].spec_endpoint_id() != e,
    ensures
        last_for(s, e, m) == -1,
    decreases m,
{
    if m > 0 {
        lemma_last_for_none(s, e, m - 1);
    }
}

/// Appending an entry for `ep` that follows its last entry, with `d2` the
/// record of `ep` afterwards, keeps the order.
proof fn lemma_alt_push(
    s: Seq<TransferIndexEntry>,
    d1: Seq<EndpointData>,
    d2: Seq<EndpointData>,
    x: TransferIndexEntry,
    ep: int,
    loose: int,
)
    requires
        alternation_ok(s, d1, -1),
        0 <= ep < d1.len(),
        d1.len() == d2.len(),
        d1.len() <= ENDPOINT_ID_LIMIT,
        x.spec_endpoint_id() == ep,
        forall|e: int| 0 <= e < d1.len() && e != ep ==> #[trigger] d2[e] == d1[e],
        follows(s.push(x), s.len() as int),
        tail_ok(s.push(x), ep as u64, d2[ep], ep != loose),
    ensures
        alternation_ok(s.push(x), d2, loose),
{
    reveal(alternation_ok);
    lemma_follows_push(s, x);
    let s2 = s.push(x);
    assert forall|e: int| 0 <= e < d2.len() implies tail_ok(s2, e as u64, #[trigger] d2[e], e != loose) by {
        if e != ep {
            assert(tail_ok(s, e as u64, d1[e], true));
            lemma_last_for_push(s, x, e as u64, s.len() as int);
            lemma_last_for_bound(s, e as u64, s.len() as int);
            assert(s2[s.len() as int].spec_endpoint_id() != e as u64);
            assert(last_for(s2, e as u64, s2.len() as int) == last_for(s2, e as u64, s.len() as int));
            let k = last_for(s, e as u64, s.len() as int);
            if k >= 0 {
                assert(s2[k] == s[k]);
            }
        }
    }
}

/// A record whose open transfer gains a transaction keeps the order.
proof fn lemma_alt_count(
    s: Seq<TransferIndexEntry>,
    d1: Seq<EndpointData>,
    d2: Seq<EndpointData>,
    ep: int,
    loose: int,
)
    requires
        alternation_ok(s, d1, loose),
        loose == ep || loose == -1,
        0 <= ep < d1.len(),
        d1.len() == d2.len(),
        forall|e: int| 0 <= e < d1.len() && e != ep ==> #[trigger] d2[e] == d1[e],
        d2[ep].transfer_index@.len() == d1[ep].transfer_index@.len(),
        d2[ep].transaction_count > 0,
        last_for(s, ep as u64, s.len() as int) >= 0,
        s[last_for(s, ep as u64, s.len() as int)].spec_is_start(),
    ensures
        alternation_ok(s, d2, -1),
{
    reveal(alternation_ok);
    assert forall|e: int| 0 <= e < d2.len() implies tail_ok(s, e as u64, #[trigger] d2[e], e != -1) by {
        assert(tail_ok(s, e as u64, d1[e], e != loose));
    }
}

/// While an endpoint's transfer is open, its last entry starts it.
proof fn lemma_open_is_start(s: Seq<TransferIndexEntry>, d: Seq<EndpointData>, ep: int)
    requires
        alternation_ok(s, d, -1),
        0 <= ep < d.len(),
        d[ep].transaction_count > 0,
    ensures
        last_for(s, ep as u64, s.len() as int) >= 0,
        s[last_for(s, ep as u64, s.len() as int)].spec_is_start(),
{
    reveal(alternation_ok);
    assert(tail_ok(s, ep as u64, d[ep], true));
}

/// A new record with no transfers and no entries keeps the order.
proof fn lemma_alt_new_record(s: Seq<TransferIndexEntry>, d1: Seq<EndpointData>, d2: Seq<EndpointData>)
    requires
        alternation_ok(s, d1, -1),
        d2.len() == d1.len() + 1,
        d2.drop_last() == d1,
        d2.last().transfer_index@.len() == 0,
        d2.last().transaction_count == 0,
        d1.len() < ENDPOINT_ID_LIMIT,
        forall|k: int| 0 <= k < s.len() ==> #[trigger] s[k].spec_endpoint_id() < d1.len(),
    ensures
        alternation_ok(s, d2, -1),
{
    reveal(alternation_ok);
    assert forall|e: int| 0 <= e < d2.len() implies tail_ok(s, e as u64, #[trigger] d2[e], e != -1) by {
        if e < d1.len() {
            assert(d2[e] == d1[e]);
            assert(tail_ok(s, e as u64, d1[e], true));
        } else {
            assert forall|k: int| 0 <= k < s.len() implies #[trigger] s[k].spec_endpoint_id() != e as u64 by {}
            lemma_last_for_none(s, e as u64, s.len() as int);
        }
    }
}

/// The state of the capture after `n` packets have been seen by the
/// transaction decoder.
pub struct Capture {
    pub item_index: MonotonicIndex,
    pub packet_index: MonotonicIndex,
    pub packet_data: Vec<u8>,
    pub transaction_index: MonotonicIndex,
    pub transfer_index: Vec<TransferIndexEntry>,
    pub endpoint_index: Vec<i16>,
    pub endpoints: Vec<Endpoint>,
    pub endpoint_data: Vec<EndpointData>,
    pub endpoint_states: Vec<u8>,
    pub endpoint_state_index: MonotonicIndex,
    pub last_endpoint_state: Vec<u8>,
    pub last_item_endpoint: i16,
    pub transaction_state: TransactionState,
    /// For each transfer entry, the number of endpoints when it was added.
    pub snapshot_lengths: Ghost<Seq<nat>>,
}

impl Capture {
    /// Everything `o` stored is still stored, in the same place: packets,
    /// transactions, transfer entries, top-level items, endpoints and
    /// endpoint-state snapshots are only ever appended.
    pub open spec fn grows_from(&self, o: &Capture) -> bool {
        &&& extends(self.packet_index@, o.packet_index@)
        &&& extends(self.packet_data@, o.packet_data@)
        &&& extends(self.transaction_index@, o.transaction_index@)
        &&& extends(self.transfer_index@, o.transfer_index@)
        &&& extends(self.item_index@, o.item_index@)
        &&& extends(self.endpoints@, o.endpoints@)
        &&& extends(self.endpoint_states@, o.endpoint_states@)
        &&& extends(self.endpoint_state_index@, o.endpoint_state_index@)
    }

    /// The transaction in progress: PIDs of its first and last packets, the
    /// id of its first packet, and how many packets it holds (zero when
    /// there is none).
    pub open spec fn pending(&self) -> (PID, PID, u64, u64) {
        let ts = self.transaction_state;
        (ts.first, ts.last, ts.start, ts.count)
    }

    /// `self` is `o` after the transaction decoder took `packet` as packet
    /// `n`: by the status of its PID against the transaction in progress, a
    /// new transaction starts (the one in progress, if any, is recorded),
    /// the packet extends the transaction, completes it (and it is
    /// recorded), or is recorded alone as an invalid transaction.
    pub open spec fn decoded(&self, o: &Capture, packet: Seq<u8>, n: nat) -> bool {
        let (first, last, start, count) = o.pending();
        let pid = pid_of(byte_at(packet, 0));
        let flushed = if count > 0 {
            o.transaction_starts().push(start)
        } else {
            o.transaction_starts()
        };
        match transaction_status(first, last, pid) {
            DecodeStatus::NEW => self.transaction_starts() == flushed && self.pending() == (
                pid,
                pid,
                n as u64,
                1u64,
            ),
            DecodeStatus::CONTINUE => self.transaction_starts() == o.transaction_starts()
                && self.pending() == (first, pid, start, (count + 1) as u64),
            DecodeStatus::DONE => self.transaction_starts() == o.transaction_starts().push(start)
                && self.pending() == (PID::Malformed, PID::Malformed, start, 0u64),
            DecodeStatus::INVALID => self.transaction_starts() == flushed.push(n as u64)
                && self.pending() == (PID::Malformed, PID::Malformed, n as u64, 0u64),
        }
    }

    /// What `self` holds below the transaction layer after the transaction
    /// decoder took `packet` in `o`. When the packet starts a new transaction
    /// and none was in progress, its endpoint is found as `endpoint_lookup`
    /// says; when one was in progress, the transfer layer took it first. A
    /// continued transaction changes nothing there. A completed one is taken
    /// by the transfer layer, with its last packet counted in.
    pub open spec fn layers_decoded(&self, o: &Capture, packet: Seq<u8>) -> bool {
        let (first, last, start, count) = o.pending();
        let pid = pid_of(byte_at(packet, 0));
        match transaction_status(first, last, pid) {
            DecodeStatus::NEW => if count > 0 {
                self.transfer_decoded(o)
            } else {
                &&& self.endpoint_lookup(o, packet)
                &&& self.transfer_index == o.transfer_index
                &&& self.item_index == o.item_index
            },
            DecodeStatus::CONTINUE => {
                &&& self.transfer_index == o.transfer_index
                &&& self.item_index == o.item_index
                &&& self.endpoints == o.endpoints
                &&& self.endpoint_data == o.endpoint_data
                &&& self.transaction_state.endpoint_id == o.transaction_state.endpoint_id
            },
            DecodeStatus::DONE => {
                &&& self.endpoints == o.endpoints
                &&& exists|mid: Capture|
                    {
                        &&& mid.transfer_index == o.transfer_index
                        &&& mid.endpoint_data == o.endpoint_data
                        &&& mid.transaction_index == o.transaction_index
                        &&& mid.transaction_state == TransactionState {
                            last: pid,
                            count: (count + 1) as u64,
                            ..o.transaction_state
                        }
                        &&& #[trigger] self.transfer_decoded(&mid)
                        &&& self.record_decoded(&mid)
                    }
            },
            DecodeStatus::INVALID => true,
        }
    }

    /// `layers_decoded` reads only the state below the transaction layer.
    proof fn lemma_layers_frame(a: &Capture, b: &Capture, o: &Capture, packet: Seq<u8>)
        requires
            a.layers_decoded(o, packet),
            b.transfer_index == a.transfer_index,
            b.item_index == a.item_index,
            b.endpoints == a.endpoints,
            b.endpoint_data == a.endpoint_data,
            b.endpoint_index == a.endpoint_index,
            b.last_endpoint_state == a.last_endpoint_state,
            b.transaction_state == a.transaction_state,
        ensures
            b.layers_decoded(o, packet),
    {
        reveal(Capture::transfer_decoded);
        let (first, last, start, count) = o.pending();
        let pid = pid_of(byte_at(packet, 0));
        if transaction_status(first, last, pid) == DecodeStatus::DONE {
            let mid = choose|mid: Capture|
                {
                    &&& mid.transfer_index == o.transfer_index
                    &&& mid.endpoint_data == o.endpoint_data
                    &&& mid.transaction_index == o.transaction_index
                    &&& mid.transaction_state == TransactionState {
                        last: pid,
                        count: (count + 1) as u64,
                        ..o.transaction_state
                    }
                    &&& #[trigger] a.transfer_decoded(&mid)
                    &&& a.record_decoded(&mid)
                };
            assert(b.transfer_decoded(&mid) && b.record_decoded(&mid));
        }
    }

    /// `self` is `o` after the endpoint of a transaction starting with
    /// `packet` was found. A SOF belongs to the framing endpoint 1 and a
    /// packet with no token to the invalid endpoint 0. A token names a
    /// device address and endpoint number: the endpoint registered for them,
    /// or a new one registered now with an empty record of the type its
    /// number gives, or endpoint 0 where the table is full.
    pub open spec fn endpoint_lookup(&self, o: &Capture, packet: Seq<u8>) -> bool {
        let id = self.transaction_state.endpoint_id;
        let unchanged = self.endpoints == o.endpoints && self.endpoint_data == o.endpoint_data
            && self.endpoint_index == o.endpoint_index && self.last_endpoint_state
            == o.last_endpoint_state;
        match packet_fields(packet) {
            PacketFields::Token(tk) => {
                let a = tk.0 % 128;
                let k = (tk.0 / 128) % 16;
                let slot = a * 16 + k;
                let e = o.endpoint_index@[slot as int];
                let n = o.endpoints@.len();
                if e < 0 && n < ENDPOINT_ID_LIMIT {
                    let d = self.endpoint_data@.last();
                    &&& self.endpoints@ == o.endpoints@.push(
                        Endpoint { device_address: a as u8, endpoint_number: k as u8 },
                    )
                    &&& self.endpoint_data@.drop_last() == o.endpoint_data@
                    &&& self.endpoint_data@.len() == n + 1
                    &&& d.ep_type == endpoint_type_of(k as u8)
                    &&& d.transaction_ids@.len() == 0
                    &&& d.transfer_index@.len() == 0
                    &&& d.transaction_count == 0
                    &&& d.last == PID::Malformed
                    &&& self.last_endpoint_state@ == o.last_endpoint_state@.push(0)
                    &&& self.endpoint_index@ == o.endpoint_index@.update(slot as int, n as i16)
                    &&& id == n
                } else {
                    unchanged && id == (if e < 0 { 0 } else { e as usize })
                }
            },
            PacketFields::SOF(_) => unchanged && id == 1,
            _ => unchanged && id == 0,
        }
    }

    /// The transfer entries that handing the transaction in progress to
    /// the transfer layer writes. Unless it is a failed retry inside an open
    /// transfer, its endpoint's status rule decides: an end for an open
    /// transfer and a start (new), nothing (continue), an end (done), or an
    /// end for an open transfer, then a start and an end around it alone
    /// (invalid).
    pub open spec fn expected_entries(&self) -> Seq<(u64, u64, bool)> {
        let ts = self.transaction_state;
        let ep = ts.endpoint_id as int;
        let d = self.endpoint_data@[ep];
        let status = endpoint_status(d.ep_type, d.last, ts.first);
        let completed = ts.count == 3 && ts.last == PID::ACK;
        let retry = d.transaction_count > 0 && status != DecodeStatus::INVALID && !completed;
        let l = d.transfer_index@.len() as u64;
        let close = if d.transaction_count > 0 {
            seq![(ep as u64, l, false)]
        } else {
            Seq::empty()
        };
        if retry {
            Seq::empty()
        } else {
            match status {
                DecodeStatus::NEW => close.push((ep as u64, l, true)),
                DecodeStatus::CONTINUE => Seq::empty(),
                DecodeStatus::DONE => seq![(ep as u64, l, false)],
                DecodeStatus::INVALID => close.push((ep as u64, l, true)).push(
                    (ep as u64, (l + 1) as u64, false),
                ),
            }
        }
    }

    /// `self` holds the endpoint records of `o`, but for the record of the
    /// endpoint of the transaction in progress in `o`: the transaction joins
    /// its list, and by the same rule as `expected_entries` a new transfer
    /// is opened on it (new, invalid), or the open one is extended (retry,
    /// continue, done); a success moves the transfer's last PID on, and a
    /// closed transfer (done, invalid) is left with no count and no PID.
    pub open spec fn record_decoded(&self, o: &Capture) -> bool {
        let ts = o.transaction_state;
        let ep = ts.endpoint_id as int;
        let d = o.endpoint_data@[ep];
        let d1 = self.endpoint_data@[ep];
        let status = endpoint_status(d.ep_type, d.last, ts.first);
        let completed = ts.count == 3 && ts.last == PID::ACK;
        let retry = d.transaction_count > 0 && status != DecodeStatus::INVALID && !completed;
        let opened = d.transfer_index@.push(d.transaction_ids@.len() as u64);
        &&& self.others_same(o, ep)
        &&& d1.ep_type == d.ep_type
        &&& d1.transaction_ids@ == d.transaction_ids@.push(o.transaction_index@.len() as u64)
        &&& if retry {
            d1.transfer_index@ == d.transfer_index@ && d1.transaction_count == d.transaction_count + 1
                && d1.last == d.last
        } else {
            match status {
                DecodeStatus::NEW => d1.transfer_index@ == opened && d1.transaction_count == 1
                    && d1.last == ts.first,
                DecodeStatus::CONTINUE => d1.transfer_index@ == d.transfer_index@
                    && d1.transaction_count == d.transaction_count + 1 && d1.last == ts.first,
                DecodeStatus::DONE => d1.transfer_index@ == d.transfer_index@
                    && d1.transaction_count == 0 && d1.last == PID::Malformed,
                DecodeStatus::INVALID => d1.transfer_index@ == opened && d1.transaction_count == 0
                    && d1.last == PID::Malformed,
            }
        }
    }

    /// `self` holds the entries of `o` followed by those that
    /// `o.expected_entries()` lists.
    #[verifier::opaque]
    pub open spec fn transfer_decoded(&self, o: &Capture) -> bool {
        let m = o.transfer_index@.len() as int;
        let x = o.expected_entries();
        &&& self.transfer_index@.len() == m + x.len()
        &&& forall|i: int| 0 <= i < x.len() ==> #[trigger] entry_fields(self.transfer_index@[m + i])
            == x[i]
    }

    proof fn lemma_decoded(&self, o: &Capture, x: Seq<(u64, u64, bool)>)
        requires
            x == o.expected_entries(),
            self.transfer_index@.len() == o.transfer_index@.len() + x.len(),
            forall|i: int| 0 <= i < x.len() ==> #[trigger] entry_fields(
                self.transfer_index@[o.transfer_index@.len() + i],
            ) == x[i],
        ensures
            self.transfer_decoded(o),
    {
        reveal(Capture::transfer_decoded);
    }

    pub open spec fn n_endpoints(&self) -> nat {
        self.endpoints@.len()
    }

    pub open spec fn n_packets(&self) -> nat {
        self.packet_index@.len()
    }

    pub open spec fn n_data(&self) -> nat {
        self.packet_data@.len()
    }

    pub open spec fn n_transactions(&self) -> nat {
        self.transaction_index@.len()
    }

    pub open spec fn n_entries(&self) -> nat {
        self.transfer_index@.len()
    }

    /// The endpoint registry is consistent.
    closed spec fn endpoints_ok(&self) -> bool {
        &&& self.endpoint_data@.len() == self.endpoints@.len()
        &&& self.last_endpoint_state@.len() == self.endpoints@.len()
        &&& 2 <= self.endpoints@.len() <= ENDPOINT_ID_LIMIT
        &&& self.endpoint_index@.len() == ENDPOINT_SLOTS
        &&& forall|k: int| 0 <= k < ENDPOINT_SLOTS ==>
            #[trigger] self.endpoint_index@[k] < self.endpoints@.len()
        &&& self.transaction_state.endpoint_id < self.endpoints@.len()
    }

    /// Every transfer entry names an existing endpoint and one of its
    /// transfers (a start entry) or at most one past its last (an end entry).
    closed spec fn entries_ok(&self) -> bool {
        forall|k: int| 0 <= k < self.transfer_index@.len() ==> {
            let e = #[trigger] self.transfer_index@[k];
            &&& e.spec_endpoint_id() < self.endpoints@.len()
            &&& e.spec_transfer_id()
                <= self.endpoint_data@[e.spec_endpoint_id() as int].transfer_index@.len()
            &&& e.spec_is_start() ==> e.spec_transfer_id()
                < self.endpoint_data@[e.spec_endpoint_id() as int].transfer_index@.len()
        }
    }

    /// The endpoint records hold while `n_transactions` transactions are
    /// recorded.
    closed spec fn records_ok(&self, n_transactions: nat) -> bool {
        forall|i: int| 0 <= i < self.endpoint_data@.len() ==> endpoint_ok(
            #[trigger] self.endpoint_data@[i],
            n_transactions,
            self.transfer_index@.len(),
        )
    }

    /// The snapshot index has one offset for each transfer entry.
    closed spec fn snapshots_ok(&self) -> bool {
        &&& self.endpoint_state_index.wf()
        &&& self.endpoint_state_index@.len() == self.transfer_index@.len()
        &&& self.endpoint_states@.len() <= u64::MAX
        &&& forall|k: int| 0 <= k < self.endpoint_state_index@.len() ==>
            #[trigger] self.endpoint_state_index@[k] <= self.endpoint_states@.len()
        &&& self.lengths_ok()
        &&& marked(self.transfer_index@, self.endpoint_state_index@, self.endpoint_states@)
    }

    /// Snapshot `k` runs from its offset for `snapshot_lengths[k]` bytes, and
    /// the snapshots follow one another from offset zero.
    closed spec fn lengths_ok(&self) -> bool {
        let lens = self.snapshot_lengths@;
        let offsets = self.endpoint_state_index@;
        let m = offsets.len();
        &&& lens.len() == m
        &&& m == 0 ==> self.endpoint_states@.len() == 0
        &&& m > 0 ==> offsets[0] == 0
        &&& m > 0 ==> self.endpoint_states@.len() == offsets[m - 1] + lens[m - 1]
        &&& forall|k: int| 0 <= k && k + 1 < m ==> #[trigger] offsets[k + 1] == offsets[k] + lens[k]
        &&& forall|k: int| 0 <= k < m ==> 2 <= #[trigger] lens[k] <= self.endpoints@.len()
        &&& forall|k: int, j: int| 0 <= k <= j < m ==> lens[k] <= lens[j]
    }

    /// The transaction decoder's state after `n` packets.
    closed spec fn transactions_ok(&self, n: nat) -> bool {
        let ts = self.transaction_state;
        &&& self.transaction_index.wf()
        &&& strictly_increasing(self.transaction_index@)
        &&& forall|k: int| 0 <= k < self.transaction_index@.len() ==>
            #[trigger] self.transaction_index@[k] < n
        &&& ts.count == 0 ==> ts.first == PID::Malformed && ts.last == PID::Malformed
        &&& ts.count > 0 ==> ts.start + ts.count == n && (self.transaction_index@.len() == 0
            || self.transaction_index@.last() < ts.start)
        &&& self.transaction_index@.len() + (if ts.count > 0 { 1int } else { 0 }) <= n
        &&& self.transaction_index@.len() > 0 ==> self.transaction_index@[0] == 0
        &&& self.transaction_index@.len() == 0 && ts.count > 0 ==> ts.start == 0
        &&& self.transaction_index@.len() == 0 && ts.count == 0 ==> n == 0
        &&& self.transfer_index@.len() <= 3 * self.transaction_index@.len()
        &&& n <= PACKET_LIMIT
    }

    closed spec fn items_ok(&self) -> bool {
        &&& self.item_index.wf()
        &&& forall|k: int| 0 <= k < self.item_index@.len() ==>
            #[trigger] self.item_index@[k] < self.transfer_index@.len()
    }

    closed spec fn packets_ok(&self) -> bool {
        &&& self.packet_index.wf()
        &&& forall|k: int| 0 <= k < self.packet_index@.len() ==>
            #[trigger] self.packet_index@[k] <= self.packet_data@.len()
        &&& self.packet_data@.len() <= DATA_LIMIT
    }

    /// The decoder's state once `n` packets have been seen, whether or not
    /// the last of them has been stored yet.
    closed spec fn inv(&self, n: nat) -> bool {
        &&& self.endpoints_ok()
        &&& self.entries_ok()
        &&& self.records_ok(self.transaction_index@.len())
        &&& owns_all(self.endpoint_data@, self.transaction_index@.len())
        &&& alternation_ok(self.transfer_index@, self.endpoint_data@, -1)
        &&& self.snapshots_ok()
        &&& self.transactions_ok(n)
        &&& self.items_ok()
    }

    /// The capture is well formed.
    pub closed spec fn wf(&self) -> bool {
        &&& self.inv(self.packet_index@.len())
        &&& self.packets_ok()
    }
}

impl Capture {
    /// All fields but the endpoint-state timeline are those of `o`.
    closed spec fn same_but_states(&self, o: &Capture) -> bool {
        &&& self.item_index == o.item_index
        &&& self.packet_index == o.packet_index
        &&& self.packet_data == o.packet_data
        &&& self.transaction_index == o.transaction_index
        &&& self.transfer_index == o.transfer_index
        &&& self.endpoint_index == o.endpoint_index
        &&& self.endpoints == o.endpoints
        &&& self.endpoint_data == o.endpoint_data
        &&& self.last_item_endpoint == o.last_item_endpoint
        &&& self.transaction_state == o.transaction_state
    }

    /// The packet store, the transaction index and the decoder state are
    /// those of `o`: what the transfer layer leaves alone.
    closed spec fn same_below_transfers(&self, o: &Capture) -> bool {
        &&& self.packet_index == o.packet_index
        &&& self.packet_data == o.packet_data
        &&& self.transaction_index == o.transaction_index
        &&& self.endpoint_index == o.endpoint_index
        &&& self.endpoints == o.endpoints
        &&& self.transaction_state == o.transaction_state
    }

    /// Moves every endpoint's drawing state on by one transfer entry for
    /// `endpoint_id`, and records a snapshot of the result.
    fn add_endpoint_state(&mut self, endpoint_id: usize, start: bool)
        requires
            old(self).last_endpoint_state@.len() == old(self).endpoints@.len(),
            old(self).endpoint_state_index.wf(),
            forall|k: int| 0 <= k < old(self).endpoint_state_index@.len() ==>
                #[trigger] old(self).endpoint_state_index@[k] <= old(self).endpoint_states@.len(),
        ensures
            final(self).grows_from(old(self)),
            final(self).same_but_states(old(self)),
            final(self).last_endpoint_state@.len() == old(self).last_endpoint_state@.len(),
            forall|i: int| 0 <= i < old(self).last_endpoint_state@.len() ==>
                #[trigger] final(self).last_endpoint_state@[i] == state_byte(next_endpoint_state(
                    i == endpoint_id,
                    start,
                    endpoint_state_of(old(self).last_endpoint_state@[i]),
                )),
            final(self).endpoint_states@ == old(self).endpoint_states@
                + final(self).last_endpoint_state@,
            final(self).endpoint_state_index@ == old(self).endpoint_state_index@.push(
                old(self).endpoint_states@.len() as u64,
            ),
            final(self).endpoint_state_index.wf(),
            final(self).endpoint_states@.len() <= u64::MAX,
            final(self).snapshot_lengths@ == old(self).snapshot_lengths@.push(
                old(self).endpoints@.len(),
            ),
    {
        let endpoint_count = self.endpoints.len();
        let mut i: usize = 0;
        while i < endpoint_count
            invariant
                self.same_but_states(old(self)),
                self.endpoint_states == old(self).endpoint_states,
                self.endpoint_state_index == old(self).endpoint_state_index,
                self.snapshot_lengths == old(self).snapshot_lengths,
                endpoint_count == self.endpoints@.len(),
                self.last_endpoint_state@.len() == endpoint_count,
                0 <= i <= endpoint_count,
                forall|j: int| 0 <= j < i ==> #[trigger] self.last_endpoint_state@[j] == state_byte(
                    next_endpoint_state(
                        j == endpoint_id,
                        start,
                        endpoint_state_of(old(self).last_endpoint_state@[j]),
                    ),
                ),
                forall|j: int| i <= j < endpoint_count ==> #[trigger] self.last_endpoint_state@[j]
                    == old(self).last_endpoint_state@[j],
            decreases endpoint_count - i,
        {
            let same = endpoint_id == i;
            let last = EndpointState::from_u8(self.last_endpoint_state[i]);
            let next = EndpointState::next(same, start, last).to_u8();
            self.last_endpoint_state.set(i, next);
            i = i + 1;
        }
        let state_offset = self.endpoint_states.len() as u64;
        let ghost states = self.last_endpoint_state@;
        let mut j: usize = 0;
        while j < endpoint_count
            invariant
                self.same_but_states(old(self)),
                self.last_endpoint_state@ == states,
                self.snapshot_lengths == old(self).snapshot_lengths,
                self.endpoint_state_index == old(self).endpoint_state_index,
                endpoint_count == self.last_endpoint_state@.len(),
                0 <= j <= endpoint_count,
                self.endpoint_states@ == old(self).endpoint_states@
                    + self.last_endpoint_state@.subrange(0, j as int),
            decreases endpoint_count - j,
        {
            let b = self.last_endpoint_state[j];
            self.endpoint_states.push(b);
            assert(self.endpoint_states@ =~= old(self).endpoint_states@
                + self.last_endpoint_state@.subrange(0, j + 1));
            j = j + 1;
        }
        assert(self.last_endpoint_state@.subrange(0, endpoint_count as int)
            =~= self.last_endpoint_state@);
        self.endpoint_state_index.push(state_offset);
        self.snapshot_lengths = Ghost(self.snapshot_lengths@.push(endpoint_count as nat));
        let total = self.endpoint_states.len();
        assert(total as int == self.endpoint_states@.len());
    }

    /// Appends a transfer entry for `endpoint_id`, naming its next transfer,
    /// and records the endpoint states that follow from it.
    fn add_transfer_entry(&mut self, endpoint_id: usize, start: bool)
        requires
            endpoint_id < old(self).endpoints@.len(),
            old(self).endpoints@.len() <= ENDPOINT_ID_LIMIT,
            old(self).endpoint_data@.len() == old(self).endpoints@.len(),
            old(self).endpoint_data@[endpoint_id as int].transfer_index@.len() < TRANSFER_ID_LIMIT,
            old(self).last_endpoint_state@.len() == old(self).endpoints@.len(),
            old(self).endpoint_state_index.wf(),
            forall|k: int| 0 <= k < old(self).endpoint_state_index@.len() ==>
                #[trigger] old(self).endpoint_state_index@[k] <= old(self).endpoint_states@.len(),
            marked(old(self).transfer_index@, old(self).endpoint_state_index@, old(self).endpoint_states@),
            old(self).endpoint_state_index@.len() == old(self).transfer_index@.len(),
        ensures
            marked(final(self).transfer_index@, final(self).endpoint_state_index@, final(self).endpoint_states@),
            final(self).grows_from(old(self)),
            final(self).same_below_transfers(old(self)),
            final(self).item_index == old(self).item_index,
            final(self).endpoint_data == old(self).endpoint_data,
            final(self).last_item_endpoint == old(self).last_item_endpoint,
            final(self).transfer_index@.len() == old(self).transfer_index@.len() + 1,
            final(self).transfer_index@.drop_last() == old(self).transfer_index@,
            final(self).transfer_index@.last().spec_endpoint_id() == endpoint_id,
            final(self).transfer_index@.last().spec_transfer_id()
                == old(self).endpoint_data@[endpoint_id as int].transfer_index@.len(),
            final(self).transfer_index@.last().spec_is_start() == start,
            final(self).last_endpoint_state@.len() == old(self).last_endpoint_state@.len(),
            forall|i: int| 0 <= i < old(self).last_endpoint_state@.len() ==>
                #[trigger] final(self).last_endpoint_state@[i] == state_byte(next_endpoint_state(
                    i == endpoint_id,
                    start,
                    endpoint_state_of(old(self).last_endpoint_state@[i]),
                )),
            final(self).endpoint_states@ == old(self).endpoint_states@
                + final(self).last_endpoint_state@,
            final(self).endpoint_state_index@ == old(self).endpoint_state_index@.push(
                old(self).endpoint_states@.len() as u64,
            ),
            final(self).endpoint_state_index.wf(),
            final(self).endpoint_states@.len() <= u64::MAX,
            final(self).snapshot_lengths@ == old(self).snapshot_lengths@.push(
                old(self).endpoints@.len(),
            ),
    {
        let transfer_id = self.endpoint_data[endpoint_id].transfer_index.len();
        let entry = TransferIndexEntry::new(transfer_id, endpoint_id as u64, start);
        self.transfer_index.push(entry);
        self.add_endpoint_state(endpoint_id, start);
        assert(self.transfer_index@.drop_last() =~= old(self).transfer_index@);
        proof {
            reveal(marked);
            let s0 = old(self).transfer_index@;
            let offsets = old(self).endpoint_state_index@;
            let states = old(self).endpoint_states@;
            let t = self.last_endpoint_state@;
            old(self).endpoint_state_index.lemma_wf();
            assert forall|k: int| 0 <= k < self.transfer_index@.len() implies {
                let e = #[trigger] self.transfer_index@[k];
                let st = snap(self.endpoint_state_index@, self.endpoint_states@, k);
                &&& e.spec_endpoint_id() < st.len()
                &&& endpoint_state_of(st[e.spec_endpoint_id() as int]) == if e.spec_is_start() {
                    EndpointState::Starting
                } else {
                    EndpointState::Ending
                }
            } by {
                lemma_snap_push(offsets, states, t, k);
                if k < s0.len() {
                    assert(self.transfer_index@[k] == s0[k]);
                } else {
                    let b = t[endpoint_id as int];
                    assert(b == state_byte(next_endpoint_state(true, start, endpoint_state_of(
                        old(self).last_endpoint_state@[endpoint_id as int],
                    ))));
                }
            }
        }
    }
}

impl Capture {
    /// What the transfer layer keeps between steps while `n` transactions
    /// have been handed to it.
    closed spec fn layer_ok(&self, n: nat) -> bool {
        &&& self.endpoints_ok()
        &&& self.entries_ok()
        &&& self.records_ok(n)
        &&& owns_all(self.endpoint_data@, n)
        &&& alternation_ok(self.transfer_index@, self.endpoint_data@, -1)
        &&& self.snapshots_ok()
        &&& self.items_ok()
        &&& self.transfer_index@.len() <= 3 * PACKET_LIMIT + 3
    }

    /// Every endpoint record but that of `ep` is as in `o`.
    pub open spec fn others_same(&self, o: &Capture, ep: int) -> bool {
        &&& self.endpoint_data@.len() == o.endpoint_data@.len()
        &&& forall|i: int| 0 <= i < self.endpoint_data@.len() && i != ep ==>
            #[trigger] self.endpoint_data@[i] == o.endpoint_data@[i]
    }

    /// Opens a transfer on the current transaction's endpoint.
    #[verifier::rlimit(40)]
    fn transfer_start(&mut self)
        requires
            old(self).layer_ok(old(self).transaction_index@.len()),
            old(self).transfer_index@.len() + 1 <= 3 * PACKET_LIMIT + 3,
            old(self).endpoint_data@[old(self).transaction_state.endpoint_id as int].transaction_count
                == 0,
        ensures
            final(self).item_index@ == old(self).item_index@.push(
                old(self).transfer_index@.len() as u64,
            ),
            final(self).last_item_endpoint == old(self).transaction_state.endpoint_id as i16,
            final(self).endpoint_data@[old(self).transaction_state.endpoint_id as int].transaction_start
                == old(self).endpoint_data@[old(self).transaction_state.endpoint_id as int].transaction_ids@.len(),
            final(self).grows_from(old(self)),
            final(self).same_below_transfers(old(self)),
            alternation_ok(
                final(self).transfer_index@,
                final(self).endpoint_data@,
                old(self).transaction_state.endpoint_id as int,
            ),
            ({
                let s = final(self).transfer_index@;
                let ep = old(self).transaction_state.endpoint_id;
                last_for(s, ep as u64, s.len() as int) == s.len() - 1 && s.last().spec_is_start()
            }),
            final(self).transfer_index@.drop_last() == old(self).transfer_index@,
            entry_fields(final(self).transfer_index@.last()) == (
                old(self).transaction_state.endpoint_id as u64,
                old(self).endpoint_data@[old(self).transaction_state.endpoint_id as int].transfer_index@.len() as u64,
                true,
            ),
            final(self).endpoints_ok(),
            final(self).entries_ok(),
            final(self).snapshots_ok(),
            final(self).items_ok(),
            final(self).transfer_index@.len() == old(self).transfer_index@.len() + 1,
            final(self).others_same(old(self), old(self).transaction_state.endpoint_id as int),
            ({
                let ep = old(self).transaction_state.endpoint_id as int;
                let d0 = old(self).endpoint_data@[ep];
                let d1 = final(self).endpoint_data@[ep];
                &&& d1.ep_type == d0.ep_type
                &&& d1.transaction_ids == d0.transaction_ids
                &&& d1.transfer_index.wf()
                &&& d1.transfer_index@ == d0.transfer_index@.push(
                    d0.transaction_ids@.len() as u64,
                )
                &&& d1.transaction_count == 0
                &&& d1.last == d0.last
            }),
    {
        let endpoint_id = self.transaction_state.endpoint_id;
        let ghost ep = endpoint_id as int;
        self.item_index.push(self.transfer_index.len() as u64);
        self.last_item_endpoint = endpoint_id as i16;
        assert(self.endpoint_data@[ep].transfer_index@.len() <= old(self).transfer_index@.len());
        self.add_transfer_entry(endpoint_id, true);
        let ghost mid = *self;
        let start = self.endpoint_data[endpoint_id].transaction_ids.len();
        assert(self.endpoint_data@[ep].transfer_index@.len() == 0
            || self.endpoint_data@[ep].transfer_index@.last() <= start);
        self.endpoint_data[endpoint_id].transaction_start = start;
        self.endpoint_data[endpoint_id].transaction_count = 0;
        self.endpoint_data[endpoint_id].transfer_index.push(start);
        assert forall|k: int| 0 <= k < self.transfer_index@.len() implies {
            let e = #[trigger] self.transfer_index@[k];
            &&& e.spec_endpoint_id() < self.endpoints@.len()
            &&& e.spec_transfer_id()
                <= self.endpoint_data@[e.spec_endpoint_id() as int].transfer_index@.len()
            &&& e.spec_is_start() ==> e.spec_transfer_id()
                < self.endpoint_data@[e.spec_endpoint_id() as int].transfer_index@.len()
        } by {
            if k < old(self).transfer_index@.len() {
                assert(self.transfer_index@[k] == old(self).transfer_index@[k]);
            }
        }
        proof {
            let s0 = old(self).transfer_index@;
            let d1 = old(self).endpoint_data@;
            let x = self.transfer_index@.last();
            assert(self.transfer_index@ == s0.push(x));
            reveal(alternation_ok);
            assert(tail_ok(s0, ep as u64, d1[ep], true));
            lemma_last_for_bound(s0, ep as u64, s0.len() as int);
            lemma_last_for_push(s0, x, ep as u64, s0.len() as int);
            lemma_alt_push(s0, d1, self.endpoint_data@, x, ep, ep);
        }
    }

    /// Records the current transaction in its endpoint's transfer; only a
    /// successful one moves the transfer's progress on.
    fn transfer_append(&mut self, success: bool)
        requires
            old(self).endpoints_ok(),
            ({
                let ep = old(self).transaction_state.endpoint_id as int;
                let d = old(self).endpoint_data@[ep];
                &&& d.transaction_ids.wf()
                &&& forall|j: int| 0 <= j < d.transaction_ids@.len() ==>
                    d.transaction_ids@[j] < old(self).transaction_index@.len()
                &&& d.transaction_ids@.len() <= old(self).transaction_index@.len()
                &&& d.transaction_count <= d.transaction_ids@.len()
                &&& old(self).transaction_index@.len() < PACKET_LIMIT
            }),
        ensures
            final(self).grows_from(old(self)),
            final(self).same_below_transfers(old(self)),
            final(self).item_index == old(self).item_index,
            final(self).transfer_index == old(self).transfer_index,
            final(self).last_endpoint_state == old(self).last_endpoint_state,
            final(self).endpoint_states == old(self).endpoint_states,
            final(self).endpoint_state_index == old(self).endpoint_state_index,
            final(self).snapshot_lengths == old(self).snapshot_lengths,
            final(self).last_item_endpoint == old(self).last_item_endpoint,
            final(self).others_same(old(self), old(self).transaction_state.endpoint_id as int),
            ({
                let ep = old(self).transaction_state.endpoint_id as int;
                let d0 = old(self).endpoint_data@[ep];
                let d1 = final(self).endpoint_data@[ep];
                &&& d1.ep_type == d0.ep_type
                &&& d1.transaction_ids.wf()
                &&& d1.transaction_ids@ == d0.transaction_ids@.push(
                    old(self).transaction_index@.len() as u64,
                )
                &&& d1.transfer_index == d0.transfer_index
                &&& d1.transaction_count == d0.transaction_count + 1
                &&& d1.last == (if success { old(self).transaction_state.first } else { d0.last })
            }),
    {
        let endpoint_id = self.transaction_state.endpoint_id;
        let id = self.transaction_index.len();
        self.endpoint_data[endpoint_id].transaction_ids.push(id);
        self.endpoint_data[endpoint_id].transaction_count =
            self.endpoint_data[endpoint_id].transaction_count + 1;
        if success {
            self.endpoint_data[endpoint_id].last = self.transaction_state.first;
        }
    }

    /// Closes the transfer in progress on the current transaction's
    /// endpoint, if any.
    #[verifier::spinoff_prover]
    #[verifier::rlimit(100)]
    fn transfer_end(&mut self, Ghost(n): Ghost<nat>)
        requires
            old(self).layer_ok(n),
            old(self).transfer_index@.len() + 1 <= 3 * PACKET_LIMIT + 3,
        ensures
            ({
                let ep = old(self).transaction_state.endpoint_id;
                let open = old(self).endpoint_data@[ep as int].transaction_count > 0;
                if open && old(self).last_item_endpoint != ep as i16 {
                    &&& final(self).item_index@ == old(self).item_index@.push(
                        old(self).transfer_index@.len() as u64,
                    )
                    &&& final(self).last_item_endpoint == ep as i16
                } else {
                    &&& final(self).item_index == old(self).item_index
                    &&& final(self).last_item_endpoint == old(self).last_item_endpoint
                }
            }),
            final(self).grows_from(old(self)),
            final(self).same_below_transfers(old(self)),
            final(self).layer_ok(n),
            final(self).transfer_index@.len() <= old(self).transfer_index@.len() + 1,
            ({
                let ep = old(self).transaction_state.endpoint_id as int;
                let d = old(self).endpoint_data@[ep];
                if d.transaction_count > 0 {
                    &&& final(self).transfer_index@.drop_last() == old(self).transfer_index@
                    &&& final(self).transfer_index@.len() == old(self).transfer_index@.len() + 1
                    &&& entry_fields(final(self).transfer_index@.last()) == (
                        ep as u64,
                        d.transfer_index@.len() as u64,
                        false,
                    )
                } else {
                    final(self).transfer_index@ == old(self).transfer_index@
                }
            }),
            final(self).others_same(old(self), old(self).transaction_state.endpoint_id as int),
            ({
                let ep = old(self).transaction_state.endpoint_id as int;
                let d0 = old(self).endpoint_data@[ep];
                let d1 = final(self).endpoint_data@[ep];
                &&& d1.ep_type == d0.ep_type
                &&& d1.transaction_ids == d0.transaction_ids
                &&& d1.transfer_index == d0.transfer_index
                &&& d1.transaction_count == 0
                &&& d1.last == PID::Malformed
            }),
    {
        let endpoint_id = self.transaction_state.endpoint_id;
        let ghost ep = endpoint_id as int;
        assert(endpoint_ok(self.endpoint_data@[ep], n, self.transfer_index@.len()));
        if self.endpoint_data[endpoint_id].transaction_count > 0 {
            if self.last_item_endpoint != endpoint_id as i16 {
                self.item_index.push(self.transfer_index.len() as u64);
                self.last_item_endpoint = endpoint_id as i16;
            }
            self.add_transfer_entry(endpoint_id, false);
        }
        self.endpoint_data[endpoint_id].transaction_count = 0;
        self.endpoint_data[endpoint_id].last = PID::Malformed;
        assert forall|k: int| 0 <= k < self.transfer_index@.len() implies {
            let e = #[trigger] self.transfer_index@[k];
            &&& e.spec_endpoint_id() < self.endpoints@.len()
            &&& e.spec_transfer_id()
                <= self.endpoint_data@[e.spec_endpoint_id() as int].transfer_index@.len()
            &&& e.spec_is_start() ==> e.spec_transfer_id()
                < self.endpoint_data@[e.spec_endpoint_id() as int].transfer_index@.len()
        } by {
            if k < old(self).transfer_index@.len() {
                assert(self.transfer_index@[k] == old(self).transfer_index@[k]);
            }
        }
        assert forall|i: int| 0 <= i < self.endpoint_data@.len() implies endpoint_ok(
            #[trigger] self.endpoint_data@[i],
            n,
            self.transfer_index@.len(),
        ) by {
            assert(endpoint_ok(old(self).endpoint_data@[i], n, old(self).transfer_index@.len()));
        }
        proof {
            assert forall|i: int| 0 <= i < old(self).endpoint_data@.len() implies
                #[trigger] self.endpoint_data@[i].transaction_ids@
                == old(self).endpoint_data@[i].transaction_ids@ by {
                if i != ep {
                    assert(self.endpoint_data@[i] == old(self).endpoint_data@[i]);
                }
            }
            lemma_owns_same_ids(old(self).endpoint_data@, self.endpoint_data@, n);
            let s0 = old(self).transfer_index@;
            let d1 = old(self).endpoint_data@;
            reveal(alternation_ok);
            assert(tail_ok(s0, ep as u64, d1[ep], true));
            lemma_last_for_bound(s0, ep as u64, s0.len() as int);
            if d1[ep].transaction_count > 0 {
                let x = self.transfer_index@.last();
                assert(self.transfer_index@ == s0.push(x));
                lemma_last_for_push(s0, x, ep as u64, s0.len() as int);
                lemma_alt_push(s0, d1, self.endpoint_data@, x, ep, -1);
            } else {
                assert forall|e: int| 0 <= e < d1.len() implies tail_ok(
                    s0,
                    e as u64,
                    #[trigger] self.endpoint_data@[e],
                    e != -1,
                ) by {
                    assert(tail_ok(s0, e as u64, d1[e], true));
                }
            }
        }
    }
}

impl Capture {
    /// After transaction `t` is appended to record `ep`, the records own
    /// the first `t + 1` transactions.
    proof fn lemma_after_append(&self, o: &Capture, t: nat, ep: int)
        requires
            o.layer_ok(t),
            t < PACKET_LIMIT,
            0 <= ep < o.endpoint_data@.len(),
            self.endpoint_data@.len() == o.endpoint_data@.len(),
            forall|i: int| 0 <= i < o.endpoint_data@.len() && i != ep ==> #[trigger] self.endpoint_data@[i]
                .transaction_ids@ == o.endpoint_data@[i].transaction_ids@,
            self.endpoint_data@[ep].transaction_ids@ == o.endpoint_data@[ep].transaction_ids@.push(
                t as u64,
            ),
        ensures
            owns_all(self.endpoint_data@, t + 1),
    {
        let d1 = o.endpoint_data@;
        assert forall|i: int, j: int| 0 <= i < d1.len() && 0 <= j < d1[i].transaction_ids@.len()
            implies #[trigger] d1[i].transaction_ids@[j] < t by {
            assert(endpoint_ok(d1[i], t, o.transfer_index@.len()));
        }
        lemma_owns_push(d1, self.endpoint_data@, t, ep);
    }

    /// Closes any open transfer on the current transaction's endpoint,
    /// opens a new one and appends the transaction to it.
    #[verifier::rlimit(60)]
    fn transfer_restart(&mut self, success: bool)
        requires
            old(self).layer_ok(old(self).transaction_index@.len()),
            old(self).transfer_index@.len() <= 3 * old(self).transaction_index@.len(),
            old(self).transaction_index@.len() < PACKET_LIMIT,
        ensures
            final(self).grows_from(old(self)),
            final(self).same_below_transfers(old(self)),
            final(self).layer_ok(old(self).transaction_index@.len() + 1),
            final(self).transfer_index@.len() <= old(self).transfer_index@.len() + 2,
            final(self).others_same(old(self), old(self).transaction_state.endpoint_id as int),
            ({
                let ep = old(self).transaction_state.endpoint_id as int;
                let d = old(self).endpoint_data@[ep];
                let d1 = final(self).endpoint_data@[ep];
                let l = d.transfer_index@.len() as u64;
                let m = old(self).transfer_index@.len() as int;
                let x = if d.transaction_count > 0 {
                    seq![(ep as u64, l, false), (ep as u64, l, true)]
                } else {
                    seq![(ep as u64, l, true)]
                };
                &&& final(self).transfer_index@.len() == m + x.len()
                &&& forall|i: int| 0 <= i < x.len() ==> #[trigger] entry_fields(
                    final(self).transfer_index@[m + i],
                ) == x[i]
                &&& d1.ep_type == d.ep_type
                &&& d1.transaction_ids@ == d.transaction_ids@.push(
                    old(self).transaction_index@.len() as u64,
                )
                &&& d1.transfer_index@ == d.transfer_index@.push(d.transaction_ids@.len() as u64)
                &&& d1.transaction_count == 1
                &&& d1.last == (if success { old(self).transaction_state.first } else { PID::Malformed })
            }),
    {
        let ghost t = self.transaction_index@.len();
        let ghost ep = self.transaction_state.endpoint_id as int;
        self.transfer_end(Ghost(t));
        let ghost s1 = self.transfer_index@;
        self.transfer_start();
        let ghost d0 = self.endpoint_data@;
        self.transfer_append(success);
        proof {
            self.lemma_after_append(old(self), t, ep);
            lemma_alt_count(self.transfer_index@, d0, self.endpoint_data@, ep, ep);
            let d = old(self).endpoint_data@[ep];
            lemma_entries_pushed(
                old(self).transfer_index@,
                s1,
                self.transfer_index@,
                d.transaction_count > 0,
                (ep as u64, d.transfer_index@.len() as u64, false),
                (ep as u64, d.transfer_index@.len() as u64, true),
            );
        }
    }

    /// Appends the current transaction to the transfer open on its
    /// endpoint.
    fn transfer_extend(&mut self, success: bool)
        requires
            old(self).layer_ok(old(self).transaction_index@.len()),
            old(self).transaction_index@.len() < PACKET_LIMIT,
            old(self).endpoint_data@[old(self).transaction_state.endpoint_id as int].transaction_count
                > 0,
        ensures
            final(self).grows_from(old(self)),
            final(self).same_below_transfers(old(self)),
            final(self).layer_ok(old(self).transaction_index@.len() + 1),
            final(self).transfer_index == old(self).transfer_index,
            final(self).item_index == old(self).item_index,
            final(self).others_same(old(self), old(self).transaction_state.endpoint_id as int),
            ({
                let ep = old(self).transaction_state.endpoint_id as int;
                let d = old(self).endpoint_data@[ep];
                let d1 = final(self).endpoint_data@[ep];
                &&& d1.ep_type == d.ep_type
                &&& d1.transaction_ids@ == d.transaction_ids@.push(
                    old(self).transaction_index@.len() as u64,
                )
                &&& d1.transfer_index == d.transfer_index
                &&& d1.transaction_count == d.transaction_count + 1
                &&& d1.last == (if success { old(self).transaction_state.first } else { d.last })
            }),
    {
        let ghost t = self.transaction_index@.len();
        let ghost ep = self.transaction_state.endpoint_id as int;
        proof { lemma_open_is_start(self.transfer_index@, self.endpoint_data@, ep); }
        let ghost d0 = self.endpoint_data@;
        self.transfer_append(success);
        proof {
            self.lemma_after_append(old(self), t, ep);
            lemma_alt_count(self.transfer_index@, d0, self.endpoint_data@, ep, -1);
        }
    }

    /// Hands the transaction just ended to its endpoint's transfer decoder.
    #[verifier::rlimit(60)]
    fn transfer_update(&mut self)
        requires
            old(self).layer_ok(old(self).transaction_index@.len()),
            old(self).transfer_index@.len() <= 3 * old(self).transaction_index@.len(),
            old(self).transaction_index@.len() < PACKET_LIMIT,
        ensures
            final(self).grows_from(old(self)),
            final(self).same_below_transfers(old(self)),
            final(self).layer_ok(old(self).transaction_index@.len() + 1),
            final(self).transfer_index@.len() <= old(self).transfer_index@.len() + 3,
            final(self).transfer_decoded(old(self)),
            final(self).record_decoded(old(self)),
    {
        let ghost t = self.transaction_index@.len();
        let endpoint_id = self.transaction_state.endpoint_id;
        let ghost ep = endpoint_id as int;
        let status = self.endpoint_data[endpoint_id].status(self.transaction_state.first);
        let completed = self.transaction_state.count == 3 && self.transaction_state.last
            == PID::ACK;
        let retry_needed = self.endpoint_data[endpoint_id].transaction_count > 0 && status
            != DecodeStatus::INVALID && !completed;
        assert(endpoint_ok(self.endpoint_data@[ep], t, self.transfer_index@.len()));
        let ghost d = self.endpoint_data@[ep];
        let ghost l = d.transfer_index@.len() as u64;
        let ghost m = self.transfer_index@.len() as int;
        if retry_needed {
            self.transfer_extend(false);
            proof { self.lemma_decoded(old(self), Seq::empty()); }
        } else {
            match status {
                DecodeStatus::NEW => {
                    self.transfer_restart(true);
                    proof {
                        let x = if d.transaction_count > 0 {
                            seq![(ep as u64, l, false), (ep as u64, l, true)]
                        } else {
                            seq![(ep as u64, l, true)]
                        };
                        assert(x =~= old(self).expected_entries());
                        self.lemma_decoded(old(self), x);
                    }
                },
                DecodeStatus::CONTINUE => {
                    self.transfer_extend(true);
                    proof { self.lemma_decoded(old(self), Seq::empty()); }
                },
                DecodeStatus::DONE => {
                    self.transfer_extend(true);
                    self.transfer_end(Ghost((t + 1) as nat));
                    proof { self.lemma_decoded(old(self), seq![(ep as u64, l, false)]); }
                },
                DecodeStatus::INVALID => {
                    self.transfer_restart(false);
                    let ghost s2 = self.transfer_index@;
                    self.transfer_end(Ghost((t + 1) as nat));
                    proof {
                        let y = if d.transaction_count > 0 {
                            seq![(ep as u64, l, false), (ep as u64, l, true)]
                        } else {
                            seq![(ep as u64, l, true)]
                        };
                        let x = lemma_entry_pushed(
                            old(self).transfer_index@,
                            s2,
                            self.transfer_index@,
                            y,
                            (ep as u64, (l + 1) as u64, false),
                        );
                        assert(x =~= old(self).expected_entries());
                        self.lemma_decoded(old(self), x);
                    }
                },
            }
        }
    }
}

impl Capture {
    /// Records the transaction in progress, if there is one.
    fn add_transaction(&mut self, Ghost(n): Ghost<nat>)
        requires
            old(self).inv(n),
        ensures
            old(self).transaction_state.count > 0 ==> final(self).transfer_decoded(old(self))
                && final(self).record_decoded(old(self)),
            final(self).grows_from(old(self)),
            final(self).packet_index == old(self).packet_index,
            final(self).packet_data == old(self).packet_data,
            final(self).endpoint_index == old(self).endpoint_index,
            final(self).endpoints == old(self).endpoints,
            final(self).transaction_state == old(self).transaction_state,
            old(self).transaction_state.count == 0 ==> *final(self) == *old(self),
            old(self).transaction_state.count > 0 ==> ({
                &&& final(self).transaction_index.wf()
                &&& final(self).transaction_index@ == old(self).transaction_index@.push(
                    old(self).transaction_state.start,
                )
                &&& final(self).layer_ok(final(self).transaction_index@.len())
                &&& final(self).transfer_index@.len() <= 3 * final(self).transaction_index@.len()
            }),
    {
        if self.transaction_state.count == 0 {
            return;
        }
        self.transfer_update();
        proof { reveal(Capture::transfer_decoded); }
        self.transaction_index.push(self.transaction_state.start);
        proof { reveal(Capture::transfer_decoded); }
    }

    /// Ends the transaction in progress, recording it if it holds a packet.
    fn transaction_end(&mut self, Ghost(n): Ghost<nat>)
        requires
            old(self).inv(n),
        ensures
            old(self).transaction_state.count > 0 ==> final(self).transfer_decoded(old(self))
                && final(self).record_decoded(old(self)),
            old(self).transaction_state.count == 0 ==> final(self).transfer_index
                == old(self).transfer_index && final(self).endpoint_data == old(self).endpoint_data
                && final(self).item_index == old(self).item_index
                && final(self).last_endpoint_state == old(self).last_endpoint_state,
            final(self).endpoints == old(self).endpoints,
            final(self).endpoint_index == old(self).endpoint_index,
            final(self).grows_from(old(self)),
            final(self).inv(n),
            final(self).packet_index == old(self).packet_index,
            final(self).packet_data == old(self).packet_data,
            final(self).transaction_state.count == 0,
            final(self).transaction_state.first == PID::Malformed,
            final(self).transaction_state.last == PID::Malformed,
            final(self).transaction_state.endpoint_id == old(self).transaction_state.endpoint_id,
            final(self).transaction_state.start == old(self).transaction_state.start,
            final(self).transaction_index@ == if old(self).transaction_state.count > 0 {
                old(self).transaction_index@.push(old(self).transaction_state.start)
            } else {
                old(self).transaction_index@
            },
    {
        self.add_transaction(Ghost(n));
        proof { reveal(Capture::transfer_decoded); }
        self.transaction_state.count = 0;
        self.transaction_state.first = PID::Malformed;
        self.transaction_state.last = PID::Malformed;
        proof { reveal(Capture::transfer_decoded); }
    }

    /// Extends the transaction in progress by one packet.
    fn transaction_append(&mut self, pid: PID, Ghost(n): Ghost<nat>)
        requires
            old(self).inv(n),
            old(self).transaction_state.count > 0,
            n < PACKET_LIMIT,
        ensures
            final(self).grows_from(old(self)),
            final(self).inv(n + 1),
            final(self).packet_index == old(self).packet_index,
            final(self).packet_data == old(self).packet_data,
            final(self).transaction_state.count == old(self).transaction_state.count + 1,
            final(self).transaction_state.last == pid,
            final(self).transaction_state.first == old(self).transaction_state.first,
            final(self).transaction_state.start == old(self).transaction_state.start,
            final(self).transaction_state.endpoint_id == old(self).transaction_state.endpoint_id,
            final(self).transaction_index == old(self).transaction_index,
            final(self).transfer_index == old(self).transfer_index,
            final(self).item_index == old(self).item_index,
            final(self).endpoints == old(self).endpoints,
            final(self).endpoint_data == old(self).endpoint_data,
    {
        self.transaction_state.count = self.transaction_state.count + 1;
        self.transaction_state.last = pid;
    }

    /// Registers the endpoint `num` of device `addr`.
    fn add_endpoint(&mut self, addr: usize, num: usize)
        requires
            old(self).endpoint_data@.len() == old(self).endpoints@.len(),
            old(self).last_endpoint_state@.len() == old(self).endpoints@.len(),
            old(self).endpoints@.len() < ENDPOINT_ID_LIMIT,
        ensures
            final(self).grows_from(old(self)),
            final(self).endpoints@ == old(self).endpoints@.push(
                Endpoint { device_address: addr as u8, endpoint_number: num as u8 },
            ),
            final(self).endpoint_data@.len() == old(self).endpoint_data@.len() + 1,
            final(self).endpoint_data@.drop_last() == old(self).endpoint_data@,
            ({
                let d = final(self).endpoint_data@.last();
                &&& d.ep_type == endpoint_type_of(num as u8)
                &&& d.transaction_ids.wf()
                &&& d.transaction_ids@.len() == 0
                &&& d.transfer_index.wf()
                &&& d.transfer_index@.len() == 0
                &&& d.transaction_count == 0
                &&& d.last == PID::Malformed
            }),
            final(self).last_endpoint_state@ == old(self).last_endpoint_state@.push(0),
            final(self).item_index == old(self).item_index,
            final(self).packet_index == old(self).packet_index,
            final(self).packet_data == old(self).packet_data,
            final(self).transaction_index == old(self).transaction_index,
            final(self).transfer_index == old(self).transfer_index,
            final(self).endpoint_index == old(self).endpoint_index,
            final(self).endpoint_states == old(self).endpoint_states,
            final(self).endpoint_state_index == old(self).endpoint_state_index,
            final(self).last_item_endpoint == old(self).last_item_endpoint,
            final(self).transaction_state == old(self).transaction_state,
            final(self).snapshot_lengths == old(self).snapshot_lengths,
    {
        let ep_data = EndpointData::new(EndpointType::from_number(num as u8));
        self.endpoint_data.push(ep_data);
        let endpoint = Endpoint { device_address: addr as u8, endpoint_number: num as u8 };
        self.endpoints.push(endpoint);
        self.last_endpoint_state.push(EndpointState::Idle.to_u8());
        assert(self.endpoint_data@.drop_last() =~= old(self).endpoint_data@);
    }
}

impl Capture {
    /// Starts a transaction with `packet`, which will be packet `n`, and
    /// finds the endpoint it belongs to.
    fn transaction_start(&mut self, packet: &[u8], Ghost(n): Ghost<nat>)
        requires
            old(self).inv(n),
            old(self).transaction_state.count == 0,
            n == old(self).packet_index@.len(),
            n < PACKET_LIMIT,
        ensures
            final(self).grows_from(old(self)),
            final(self).inv(n + 1),
            final(self).packet_index == old(self).packet_index,
            final(self).packet_data == old(self).packet_data,
            final(self).transaction_state.count == 1,
            final(self).transaction_state.start == n,
            final(self).transaction_state.first == pid_of(byte_at(packet@, 0)),
            final(self).transaction_state.last == pid_of(byte_at(packet@, 0)),
            final(self).transaction_index == old(self).transaction_index,
            final(self).endpoints@.len() >= old(self).endpoints@.len(),
            final(self).endpoint_lookup(old(self), packet@),
            final(self).transfer_index == old(self).transfer_index,
            final(self).item_index == old(self).item_index,
    {
        let pid = PID::from_byte(crate::fields::read_byte(packet, 0));
        self.transaction_state.start = self.packet_index.len();
        self.transaction_state.count = 1;
        self.transaction_state.first = pid;
        self.transaction_state.last = pid;
        match PacketFields::from_packet(packet) {
            PacketFields::SOF(_) => {
                self.transaction_state.endpoint_id = 1;
            },
            PacketFields::Token(token) => {
                let addr = token.device_address() as usize;
                let num = token.endpoint_number() as usize;
                let slot = addr * USB_MAX_ENDPOINTS + num;
                if self.endpoint_index[slot] < 0 {
                    if self.endpoints.len() < ENDPOINT_ID_LIMIT as usize {
                        let endpoint_id = self.endpoints.len() as i16;
                        self.endpoint_index.set(slot, endpoint_id);
                        let ghost before = self.endpoint_data@;
                        self.add_endpoint(addr, num);
                        proof {
                            lemma_owns_new_record(
                                before,
                                self.endpoint_data@,
                                self.transaction_index@.len(),
                            );
                            assert forall|k: int| 0 <= k < self.transfer_index@.len() implies
                                #[trigger] self.transfer_index@[k].spec_endpoint_id() < before.len() by {
                                assert(old(self).entries_ok());
                            }
                            lemma_alt_new_record(self.transfer_index@, before, self.endpoint_data@);
                        }
                        self.transaction_state.endpoint_id = endpoint_id as usize;
                        assert forall|i: int| 0 <= i < self.endpoint_data@.len() implies endpoint_ok(
                            #[trigger] self.endpoint_data@[i],
                            self.transaction_index@.len(),
                            self.transfer_index@.len(),
                        ) by {
                            if i < old(self).endpoint_data@.len() {
                                assert(self.endpoint_data@[i] == old(self).endpoint_data@[i]);
                            }
                        }
                    } else {
                        self.transaction_state.endpoint_id = 0;
                    }
                } else {
                    self.transaction_state.endpoint_id = self.endpoint_index[slot] as usize;
                }
            },
            _ => {
                self.transaction_state.endpoint_id = 0;
            },
        }
    }

    /// Feeds one packet, which will be packet `n`, to the transaction
    /// decoder.
    fn transaction_update(&mut self, packet: &[u8], Ghost(n): Ghost<nat>)
        requires
            old(self).inv(n),
            n == old(self).packet_index@.len(),
            n < PACKET_LIMIT,
        ensures
            final(self).grows_from(old(self)),
            final(self).inv(n + 1),
            final(self).packet_index == old(self).packet_index,
            final(self).packet_data == old(self).packet_data,
            final(self).decoded(old(self), packet@, n),
            final(self).layers_decoded(old(self), packet@),
    {
        let pid = PID::from_byte(crate::fields::read_byte(packet, 0));
        match self.transaction_state.status(pid) {
            DecodeStatus::NEW => {
                self.transaction_end(Ghost(n));
                self.transaction_start(packet, Ghost(n));
                proof { reveal(Capture::transfer_decoded); }
            },
            DecodeStatus::CONTINUE => {
                self.transaction_append(pid, Ghost(n));
            },
            DecodeStatus::DONE => {
                self.transaction_append(pid, Ghost(n));
                let ghost mid = *self;
                self.transaction_end(Ghost(n + 1));
                assert(self.transfer_decoded(&mid) && self.record_decoded(&mid));
            },
            DecodeStatus::INVALID => {
                self.transaction_end(Ghost(n));
                self.transaction_start(packet, Ghost(n));
                self.transaction_end(Ghost(n + 1));
            },
        }
    }
}

impl Capture {
    /// The stored packet bytes, all packets one after another.
    pub open spec fn data(&self) -> Seq<u8> {
        self.packet_data@
    }

    /// The offset in `data()` at which each packet starts.
    pub open spec fn packet_offsets(&self) -> Seq<u64> {
        self.packet_index@
    }

    /// For each recorded transaction, the id of its first packet.
    pub open spec fn transaction_starts(&self) -> Seq<u64> {
        self.transaction_index@
    }

    /// The transfer entries, in the order they were added.
    pub open spec fn transfer_entries(&self) -> Seq<TransferIndexEntry> {
        self.transfer_index@
    }

    /// The top-level items: positions in `transfer_entries()`.
    pub open spec fn items(&self) -> Seq<u64> {
        self.item_index@
    }

    /// An empty capture with the invalid and framing endpoints registered
    /// as endpoints 0 and 1.
    pub fn new() -> (r: Capture)
        ensures
            r.wf(),
            r.data().len() == 0,
            r.packet_offsets().len() == 0,
            r.transaction_starts().len() == 0,
            r.transfer_entries().len() == 0,
            r.items().len() == 0,
            r.n_endpoints() == 2,
            r.endpoints@ == seq![
                Endpoint { device_address: 0, endpoint_number: INVALID_NUMBER },
                Endpoint { device_address: 0, endpoint_number: FRAMING_NUMBER },
            ],
            r.endpoint_data@.len() == 2,
            r.endpoint_data@[0].ep_type == EndpointType::Invalid,
            r.endpoint_data@[1].ep_type == EndpointType::Framing,
            forall|i: int| 0 <= i < 2 ==> {
                let d = #[trigger] r.endpoint_data@[i];
                &&& d.transaction_ids@.len() == 0
                &&& d.transfer_index@.len() == 0
                &&& d.transaction_count == 0
                &&& d.last == PID::Malformed
            },
            r.last_endpoint_state@ == seq![0u8, 0u8],
            r.endpoint_index@.len() == ENDPOINT_SLOTS,
            forall|k: int| 0 <= k < ENDPOINT_SLOTS ==> #[trigger] r.endpoint_index@[k] == -1,
            r.pending() == (PID::Malformed, PID::Malformed, 0u64, 0u64),
    {
        let mut endpoint_index: Vec<i16> = Vec::new();
        let mut k: usize = 0;
        while k < ENDPOINT_SLOTS
            invariant
                0 <= k <= ENDPOINT_SLOTS,
                endpoint_index@.len() == k,
                forall|j: int| 0 <= j < k ==> #[trigger] endpoint_index@[j] == -1,
            decreases ENDPOINT_SLOTS - k,
        {
            endpoint_index.push(-1);
            k = k + 1;
        }
        let mut capture = Capture {
            item_index: MonotonicIndex::new(),
            packet_index: MonotonicIndex::new(),
            packet_data: Vec::new(),
            transaction_index: MonotonicIndex::new(),
            transfer_index: Vec::new(),
            endpoint_index,
            endpoints: Vec::new(),
            endpoint_data: Vec::new(),
            endpoint_states: Vec::new(),
            endpoint_state_index: MonotonicIndex::new(),
            last_endpoint_state: Vec::new(),
            last_item_endpoint: -1,
            transaction_state: TransactionState::new(),
            snapshot_lengths: Ghost(Seq::empty()),
        };
        capture.add_endpoint(0, INVALID_NUMBER as usize);
        capture.add_endpoint(0, FRAMING_NUMBER as usize);
        proof {
            reveal(owns_all);
            reveal(alternation_ok);
            reveal(marked);
            assert(capture.endpoint_data@[0] == capture.endpoint_data@.drop_last()[0]);
            assert(capture.endpoints@ =~= seq![
                Endpoint { device_address: 0, endpoint_number: INVALID_NUMBER },
                Endpoint { device_address: 0, endpoint_number: FRAMING_NUMBER },
            ]);
            assert(capture.last_endpoint_state@ =~= seq![0u8, 0u8]);
        }
        assert forall|i: int| 0 <= i < capture.endpoint_data@.len() implies endpoint_ok(
            #[trigger] capture.endpoint_data@[i],
            0,
            0,
        ) by {
            if i == 0 {
                assert(capture.endpoint_data@[0] == capture.endpoint_data@.drop_last()[0]);
            }
        }
        capture
    }

    /// Takes in one packet: it is decoded into transactions and transfers,
    /// and its bytes are stored.
    pub fn handle_raw_packet(&mut self, packet: &[u8])
        requires
            old(self).wf(),
            old(self).packet_offsets().len() < PACKET_LIMIT,
            old(self).data().len() + packet@.len() <= DATA_LIMIT,
        ensures
            final(self).grows_from(old(self)),
            final(self).wf(),
            final(self).data() == old(self).data() + packet@,
            final(self).decoded(old(self), packet@, old(self).packet_offsets().len()),
            final(self).layers_decoded(old(self), packet@),
            final(self).packet_offsets() == old(self).packet_offsets().push(
                old(self).data().len() as u64,
            ),
    {
        let ghost n = self.packet_index@.len();
        self.transaction_update(packet, Ghost(n));
        let ghost after = *self;
        self.packet_index.push(self.packet_data.len() as u64);
        proof { Capture::lemma_layers_frame(&after, self, old(self), packet@); }
        let mut i: usize = 0;
        while i < packet.len()
            invariant
                0 <= i <= packet@.len(),
                self.inv(n + 1),
                self.grows_from(old(self)),
                self.decoded(old(self), packet@, n),
                self.layers_decoded(old(self), packet@),
                self.packet_index@ == old(self).packet_index@.push(old(self).packet_data@.len() as u64),
                self.packet_index.wf(),
                self.packet_data@ == old(self).packet_data@ + packet@.subrange(0, i as int),
                old(self).data().len() + packet@.len() <= DATA_LIMIT,
            decreases packet@.len() - i,
        {
            let ghost before = *self;
            self.packet_data.push(packet[i]);
            proof { Capture::lemma_layers_frame(&before, self, old(self), packet@); }
            assert(self.packet_data@ =~= old(self).packet_data@ + packet@.subrange(0, i + 1));
            i = i + 1;
        }
        assert(packet@.subrange(0, packet@.len() as int) =~= packet@);
    }
}

impl Capture {
    /// Bounds of packet `id` in `data()`.
    pub open spec fn packet_range(&self, id: int) -> (u64, u64) {
        index_range(self.packet_index@, self.packet_data@.len() as u64, id)
    }

    /// The bytes of packet `id`.
    pub open spec fn packet_bytes(&self, id: int) -> Seq<u8> {
        let r = self.packet_range(id);
        self.packet_data@.subrange(r.0 as int, r.1 as int)
    }

    /// The PID of packet `id`.
    pub open spec fn packet_pid(&self, id: int) -> PID {
        pid_of(byte_at(self.packet_bytes(id), 0))
    }

    /// The packet ids that transaction `v` spans.
    pub open spec fn transaction_range(&self, v: int) -> (u64, u64) {
        index_range(self.transaction_index@, self.packet_index@.len() as u64, v)
    }

    /// The data bytes that transaction `v` carries: present when it has at
    /// least two packets and its second packet is DATA0 or DATA1.
    pub open spec fn payload_of(&self, v: int) -> Option<nat> {
        let r = self.transaction_range(v);
        let pid = self.packet_pid(r.0 as int);
        if r.1 - r.0 >= 2 {
            let d = self.packet_bytes(r.0 + 1);
            let dp = pid_of(byte_at(d, 0));
            if dp == PID::DATA0 || dp == PID::DATA1 {
                Option::Some(data_bytes(d.len()))
            } else {
                Option::None
            }
        } else {
            Option::None
        }
    }

    /// The endpoint record that transfer entry `u` belongs to.
    pub open spec fn entry_record(&self, u: int) -> EndpointData {
        self.endpoint_data@[self.transfer_index@[u].spec_endpoint_id() as int]
    }

    /// The endpoint that transfer entry `u` belongs to.
    pub open spec fn entry_endpoint(&self, u: int) -> Endpoint {
        self.endpoints@[self.transfer_index@[u].spec_endpoint_id() as int]
    }

    /// The positions in its endpoint's transaction list that the transfer
    /// started by entry `u` spans.
    pub open spec fn transfer_range(&self, u: int) -> (u64, u64) {
        let d = self.entry_record(u);
        index_range(
            d.transfer_index@,
            d.transaction_ids@.len() as u64,
            self.transfer_index@[u].spec_transfer_id() as int,
        )
    }

    /// The global transaction ids of the transfer started by entry `u`.
    pub open spec fn transfer_transactions(&self, u: int) -> Seq<u64> {
        let r = self.transfer_range(u);
        self.entry_record(u).transaction_ids@.subrange(r.0 as int, r.1 as int)
    }

    /// The item names positions that exist.
    pub open spec fn valid_item(&self, item: Item) -> bool {
        match item {
            Item::Transfer(u) => u < self.transfer_entries().len(),
            Item::Transaction(u, v) => u < self.transfer_entries().len() && v
                < self.transaction_starts().len(),
            Item::Packet(u, v, w) => u < self.transfer_entries().len() && v
                < self.transaction_starts().len() && w < self.packet_offsets().len(),
        }
    }

    /// The number of children of `parent`, or of top-level items.
    pub open spec fn count_of(&self, parent: Option<Item>) -> nat {
        match parent {
            Option::None => self.items().len(),
            Option::Some(Item::Transfer(u)) => if self.transfer_entries()[u as int].spec_is_start() {
                (self.transfer_range(u as int).1 - self.transfer_range(u as int).0) as nat
            } else {
                0
            },
            Option::Some(Item::Transaction(_, v)) => (self.transaction_range(v as int).1
                - self.transaction_range(v as int).0) as nat,
            Option::Some(Item::Packet(..)) => 0,
        }
    }

    /// Child `i` of `parent`, or top-level item `i`.
    pub open spec fn child_of(&self, parent: Option<Item>, i: int) -> Item {
        match parent {
            Option::None => Item::Transfer(self.items()[i]),
            Option::Some(Item::Transfer(u)) => Item::Transaction(
                u,
                self.transfer_transactions(u as int)[i],
            ),
            Option::Some(Item::Transaction(u, v)) => Item::Packet(
                u,
                v,
                (self.transaction_starts()[v as int] + i) as u64,
            ),
            Option::Some(Item::Packet(u, v, w)) => Item::Packet(u, v, w),
        }
    }

    proof fn lemma_ranges(&self)
        requires
            self.wf(),
        ensures
            forall|id: int| 0 <= id < self.packet_index@.len() ==> {
                let r = #[trigger] self.packet_range(id);
                r.0 <= r.1 <= self.packet_data@.len()
            },
            forall|v: int| 0 <= v < self.transaction_index@.len() ==> {
                let r = #[trigger] self.transaction_range(v);
                r.0 < r.1 <= self.packet_index@.len()
            },
            forall|u: int| 0 <= u < self.transfer_index@.len() && (
                #[trigger] self.transfer_index@[u]).spec_is_start() ==> {
                let r = self.transfer_range(u);
                r.0 < r.1 <= self.entry_record(u).transaction_ids@.len()
            },
    {
        assert forall|id: int| 0 <= id < self.packet_index@.len() implies {
            let r = #[trigger] self.packet_range(id);
            r.0 <= r.1 <= self.packet_data@.len()
        } by {
            self.packet_index.lemma_wf();
            assert(self.packet_index@[id] <= self.packet_data@.len());
            if id + 1 < self.packet_index@.len() {
                assert(self.packet_index@[id + 1] <= self.packet_data@.len());
            }
        }
        assert forall|v: int| 0 <= v < self.transaction_index@.len() implies {
            let r = #[trigger] self.transaction_range(v);
            r.0 < r.1 <= self.packet_index@.len()
        } by {
            assert(self.transaction_index@[v] < self.packet_index@.len());
            if v + 1 < self.transaction_index@.len() {
                assert(self.transaction_index@[v + 1] < self.packet_index@.len());
            }
        }
        assert forall|u: int| 0 <= u < self.transfer_index@.len() && (
            #[trigger] self.transfer_index@[u]).spec_is_start() implies {
            let r = self.transfer_range(u);
            r.0 < r.1 <= self.entry_record(u).transaction_ids@.len()
        } by {
            let e = self.transfer_index@[u];
            let d = self.entry_record(u);
            assert(endpoint_ok(d, self.transaction_index@.len(), self.transfer_index@.len()));
            let t = e.spec_transfer_id() as int;
            assert(d.transfer_index@[t] < d.transaction_ids@.len());
            if t + 1 < d.transfer_index@.len() {
                assert(d.transfer_index@[t + 1] < d.transaction_ids@.len());
            }
        }
    }

    fn entry(&self, u: u64) -> (r: TransferIndexEntry)
        requires
            u < self.transfer_index@.len(),
        ensures
            r == self.transfer_index@[u as int],
    {
        let n = self.transfer_index.len();
        assert(u < n);
        self.transfer_index[u as usize]
    }

    fn get_packet(&self, index: u64) -> (r: Vec<u8>)
        requires
            self.wf(),
            index < self.packet_offsets().len(),
        ensures
            r@ == self.packet_bytes(index as int),
    {
        proof { self.lemma_ranges(); }
        let range = get_index_range(&self.packet_index, self.packet_data.len() as u64, index);
        assert(self.packet_range(index as int).1 <= self.packet_data@.len());
        let mut r: Vec<u8> = Vec::new();
        let mut i: u64 = range.start;
        let n = self.packet_data.len();
        while i < range.end
            invariant
                n == self.packet_data@.len(),
                range.start <= i <= range.end <= self.packet_data@.len(),
                (range.start, range.end) == self.packet_range(index as int),
                r@ == self.packet_data@.subrange(range.start as int, i as int),
            decreases range.end - i,
        {
            r.push(self.packet_data[i as usize]);
            assert(r@ =~= self.packet_data@.subrange(range.start as int, i + 1));
            i = i + 1;
        }
        r
    }

    fn get_packet_pid(&self, index: u64) -> (r: PID)
        requires
            self.wf(),
            index < self.packet_offsets().len(),
        ensures
            r == self.packet_pid(index as int),
    {
        proof { self.lemma_ranges(); }
        let range = get_index_range(&self.packet_index, self.packet_data.len() as u64, index);
        let b = if range.start < range.end { self.packet_data[range.start as usize] } else { 0 };
        PID::from_byte(b)
    }

    fn get_transaction_stats(&self, index: &u64) -> (r: (Range<u64>, Option<u64>))
        requires
            self.wf(),
            *index < self.transaction_starts().len(),
        ensures
            (r.0.start, r.0.end) == self.transaction_range(*index as int),
            r.0.start < r.0.end <= self.packet_offsets().len(),
            match r.1 {
                Option::Some(p) => self.payload_of(*index as int) == Option::Some(p as nat),
                Option::None => self.payload_of(*index as int) == Option::<nat>::None,
            },
    {
        proof { self.lemma_ranges(); }
        let range = get_index_range(&self.transaction_index, self.packet_index.len(), *index);
        let packet_count = range.end - range.start;
        let pid = self.get_packet_pid(range.start);
        let payload_size = if packet_count >= 2 {
            let data_packet = self.get_packet(range.start + 1);
            let dp = PID::from_byte(crate::fields::read_byte(data_packet.as_slice(), 0));
            if dp == PID::DATA0 || dp == PID::DATA1 {
                let len = data_packet.len() as u64;
                Option::Some(if len >= 3 { len - 3 } else { 0 })
            } else {
                Option::None
            }
        } else {
            Option::None
        };
        (range, payload_size)
    }

    fn item_range(&self, item: &Item) -> (r: Range<u64>)
        requires
            self.wf(),
            self.valid_item(*item),
            item matches Item::Transfer(u) ==> self.transfer_entries()[u as int].spec_is_start(),
        ensures
            match *item {
                Item::Transfer(u) => (r.start, r.end) == self.transfer_range(u as int),
                Item::Transaction(_, v) => (r.start, r.end) == self.transaction_range(v as int),
                Item::Packet(.., w) => (r.start, r.end) == self.packet_range(w as int),
            },
            r.start <= r.end,
    {
        proof { self.lemma_ranges(); }
        match item {
            Item::Transfer(transfer_index_id) => {
                let entry = self.entry(*transfer_index_id);
                let endpoint_id = entry.endpoint_id() as usize;
                let transfer_id = entry.transfer_id();
                let ep_data = &self.endpoint_data[endpoint_id];
                assert(self.transfer_range(*transfer_index_id as int).0 < self.transfer_range(
                    *transfer_index_id as int,
                ).1);
                let r = get_index_range(
                    &ep_data.transfer_index,
                    ep_data.transaction_ids.len(),
                    transfer_id,
                );
                assert(*ep_data == self.entry_record(*transfer_index_id as int));
                assert((r.start, r.end) == self.transfer_range(*transfer_index_id as int));
                r
            },
            Item::Transaction(_, transaction_id) => {
                assert(self.transaction_range(*transaction_id as int).0
                    <= self.transaction_range(*transaction_id as int).1);
                get_index_range(&self.transaction_index, self.packet_index.len(), *transaction_id)
            },
            Item::Packet(.., packet_id) => {
                assert(self.packet_range(*packet_id as int).0 <= self.packet_range(
                    *packet_id as int,
                ).1);
                get_index_range(&self.packet_index, self.packet_data.len() as u64, *packet_id)
            },
        }
    }

    /// How many children `parent` has, or how many top-level items there
    /// are when it is `None`.
    pub fn item_count(&self, parent: &Option<Item>) -> (r: u64)
        requires
            self.wf(),
            match *parent {
                Option::Some(item) => self.valid_item(item),
                Option::None => true,
            },
        ensures
            r == self.count_of(*parent),
    {
        match parent {
            Option::None => self.item_index.len(),
            Option::Some(item) => match item {
                Item::Transfer(id) => {
                    let entry = self.entry(*id);
                    if entry.is_start() {
                        let range = self.item_range(item);
                        range.end - range.start
                    } else {
                        0
                    }
                },
                Item::Transaction(..) => {
                    let range = self.item_range(item);
                    range.end - range.start
                },
                Item::Packet(..) => 0,
            },
        }
    }

    /// Child `index` of `parent`, or top-level item `index` when it is
    /// `None`. Packets have no children.
    pub fn get_item(&self, parent: &Option<Item>, index: u64) -> (r: Item)
        requires
            self.wf(),
            match *parent {
                Option::Some(item) => self.valid_item(item) && !(item is Packet),
                Option::None => true,
            },
            index < self.count_of(*parent),
        ensures
            r == self.child_of(*parent, index as int),
            self.valid_item(r),
    {
        proof { self.lemma_ranges(); }
        match parent {
            Option::None => Item::Transfer(self.item_index.get(index)),
            Option::Some(Item::Transfer(transfer_index_id)) => {
                let entry = self.entry(*transfer_index_id);
                let endpoint_id = entry.endpoint_id() as usize;
                let transfer_id = entry.transfer_id();
                let ep_data = &self.endpoint_data[endpoint_id];
                let offset = ep_data.transfer_index.get(transfer_id);
                let ghost d = self.entry_record(*transfer_index_id as int);
                assert(endpoint_ok(d, self.transaction_index@.len(), self.transfer_index@.len()));
                Item::Transaction(*transfer_index_id, ep_data.transaction_ids.get(offset + index))
            },
            Option::Some(Item::Transaction(transfer_index_id, transaction_id)) => {
                Item::Packet(
                    *transfer_index_id,
                    *transaction_id,
                    self.transaction_index.get(*transaction_id) + index,
                )
            },
            Option::Some(Item::Packet(u, v, w)) => Item::Packet(*u, *v, *w),
        }
    }
}

impl Capture {
    /// The bytes of packet `id`, or none where there is no such packet.
    pub open spec fn packet_or_empty(&self, id: int) -> Seq<u8> {
        if 0 <= id < self.packet_offsets().len() { self.packet_bytes(id) } else { Seq::empty() }
    }

    /// The data bytes that transaction `v` moved in the direction of a
    /// control transfer's data stage (`dir_in` for device to host).
    pub open spec fn stage_bytes(&self, v: int, dir_in: bool) -> nat {
        let pid = self.packet_pid(self.transaction_range(v).0 as int);
        match self.payload_of(v) {
            Option::Some(size) => if (dir_in && pid == PID::IN) || (!dir_in && pid == PID::OUT) {
                size
            } else {
                0
            },
            Option::None => 0,
        }
    }

    /// The sum of `stage_bytes` over the transactions `ids`.
    pub open spec fn data_size(&self, ids: Seq<u64>, dir_in: bool) -> nat
        decreases ids.len(),
    {
        if ids.len() == 0 {
            0
        } else {
            self.data_size(ids.drop_last(), dir_in) + self.stage_bytes(ids.last() as int, dir_in)
        }
    }

    /// The setup fields of the control transfer started by entry `u`: those
    /// of the packet after its first transaction's SETUP token.
    pub open spec fn transfer_setup(&self, u: int) -> SetupFields {
        let first = self.transfer_transactions(u)[0];
        setup_fields(self.packet_or_empty(self.transaction_starts()[first as int] + 1))
    }

    /// The summary line of `item`.
    pub open spec fn summary_of(&self, item: Item) -> Seq<char> {
        match item {
            Item::Packet(.., w) => packet_summary(self.packet_bytes(w as int)),
            Item::Transaction(_, v) => {
                let r = self.transaction_range(v as int);
                transaction_summary(self.packet_pid(r.0 as int), (r.1 - r.0) as nat, self.payload_of(v as int))
            },
            Item::Transfer(u) => {
                let t = self.entry_record(u as int).ep_type;
                let ep = self.entry_endpoint(u as int);
                if !self.transfer_entries()[u as int].spec_is_start() {
                    transfer_end_summary(t, ep)
                } else if t == EndpointType::Control {
                    let f = self.transfer_setup(u as int);
                    control_summary(
                        f,
                        ep.device_address,
                        self.data_size(self.transfer_transactions(u as int), f.type_fields.0 / 128 != 0),
                    )
                } else {
                    transfer_summary(t, ep, self.count_of(Option::Some(item)))
                }
            },
        }
    }

    /// The data bytes of a control transfer's data stage.
    fn control_data_size(&self, transaction_ids: &Vec<u64>, direction: Direction) -> (r: u128)
        requires
            self.wf(),
            transaction_ids@.len() <= PACKET_LIMIT,
            forall|j: int| 0 <= j < transaction_ids@.len() ==>
                #[trigger] transaction_ids@[j] < self.transaction_starts().len(),
        ensures
            r == self.data_size(transaction_ids@, direction == Direction::In),
    {
        let mut data_size: u128 = 0;
        let mut i: usize = 0;
        while i < transaction_ids.len()
            invariant
                self.wf(),
                transaction_ids@.len() <= PACKET_LIMIT,
                forall|j: int| 0 <= j < transaction_ids@.len() ==>
                    #[trigger] transaction_ids@[j] < self.transaction_starts().len(),
                0 <= i <= transaction_ids@.len(),
                data_size == self.data_size(transaction_ids@.subrange(0, i as int), direction == Direction::In),
                data_size <= i * 0x1_0000_0000_0000_0000,
            decreases transaction_ids@.len() - i,
        {
            let id = transaction_ids[i];
            let (range, payload) = self.get_transaction_stats(&id);
            let pid = self.get_packet_pid(range.start);
            let add: u64 = match payload {
                Option::Some(size) => {
                    if (direction == Direction::In && pid == PID::IN) || (direction == Direction::Out
                        && pid == PID::OUT) {
                        size
                    } else {
                        0
                    }
                },
                Option::None => 0,
            };
            proof {
                let sub = transaction_ids@.subrange(0, i + 1);
                assert(sub.drop_last() =~= transaction_ids@.subrange(0, i as int));
                assert(data_size + add <= (i + 1) * 0x1_0000_0000_0000_0000) by (nonlinear_arith)
                    requires
                        data_size <= i * 0x1_0000_0000_0000_0000,
                        add < 0x1_0000_0000_0000_0000,
                ;
                assert(i + 1 <= 0x4_0000_0000_0000);
                assert((i + 1) * 0x1_0000_0000_0000_0000 <= 0x4_0000_0000_0000 * 0x1_0000_0000_0000_0000int) by (nonlinear_arith)
                    requires
                        i + 1 <= 0x4_0000_0000_0000,
                ;
            }
            data_size = data_size + add as u128;
            i = i + 1;
        }
        assert(transaction_ids@.subrange(0, i as int) =~= transaction_ids@);
        data_size
    }

    /// A one-line description of `item`.
    pub fn get_summary(&self, item: &Item) -> (r: String)
        requires
            self.wf(),
            self.valid_item(*item),
        ensures
            r@ == self.summary_of(*item),
    {
        proof { self.lemma_ranges(); }
        match item {
            Item::Packet(.., packet_id) => {
                let packet = self.get_packet(*packet_id);
                packet_summary_text(packet.as_slice())
            },
            Item::Transaction(_, transaction_id) => {
                let (range, payload_size) = self.get_transaction_stats(transaction_id);
                let pid = self.get_packet_pid(range.start);
                let count = range.end - range.start;
                transaction_summary_text(pid, count, payload_size)
            },
            Item::Transfer(transfer_index_id) => {
                let entry = self.entry(*transfer_index_id);
                let endpoint_id = entry.endpoint_id() as usize;
                let endpoint = self.endpoints[endpoint_id];
                let ep_type = self.endpoint_data[endpoint_id].ep_type;
                if !entry.is_start() {
                    return transfer_end_text(ep_type, endpoint);
                }
                let range = self.item_range(item);
                let count = range.end - range.start;
                match ep_type {
                    EndpointType::Control => {
                        let ep_data = &self.endpoint_data[endpoint_id];
                        let ghost d = self.entry_record(*transfer_index_id as int);
                        assert(endpoint_ok(d, self.transaction_index@.len(), self.transfer_index@.len()));
                        let transaction_ids = ep_data.transaction_ids.get_range(range);
                        let setup_transaction_id = transaction_ids[0];
                        let setup_packet_id = self.transaction_index.get(setup_transaction_id);
                        let data_packet_id = setup_packet_id + 1;
                        let data_packet = if data_packet_id < self.packet_index.len() {
                            self.get_packet(data_packet_id)
                        } else {
                            Vec::new()
                        };
                        let fields = SetupFields::from_data_packet(data_packet.as_slice());
                        let direction = fields.type_fields.direction();
                        let data_size = self.control_data_size(&transaction_ids, direction);
                        control_text(&fields, endpoint.device_address, data_size)
                    },
                    _ => transfer_text(ep_type, endpoint, count),
                }
            },
        }
    }
}

/// The transfer entry that an item belongs to.
pub open spec fn item_entry(item: Item) -> u64 {
    match item {
        Item::Transfer(u) => u,
        Item::Transaction(u, _) => u,
        Item::Packet(u, ..) => u,
    }
}

impl Capture {
    /// The endpoint states recorded when transfer entry `k` was added.
    pub open spec fn snapshot(&self, k: int) -> Seq<u8> {
        snap(self.endpoint_state_index@, self.endpoint_states@, k)
    }

    /// The transfer of entry `k`'s endpoint is still in progress at the
    /// next entry.
    pub open spec fn extended(&self, ep: int, k: int) -> bool {
        &&& k + 1 < self.transfer_entries().len()
        &&& ep < self.snapshot(k + 1).len()
        &&& endpoint_state_of(self.snapshot(k + 1)[ep]) == EndpointState::Ongoing
    }

    /// The item is, or lies in, the last transaction of its transfer.
    pub open spec fn in_last_transaction(&self, item: Item) -> bool {
        match item {
            Item::Transfer(_) => false,
            Item::Transaction(u, v) | Item::Packet(u, v, _) => {
                let ids = self.transfer_transactions(u as int);
                v == ids.last()
            },
        }
    }

    /// The item is the last packet of its transaction.
    pub open spec fn is_last_packet(&self, item: Item) -> bool {
        match item {
            Item::Packet(_, v, w) => w == self.transaction_range(v as int).1 - 1,
            _ => false,
        }
    }

    /// The line of the item's endpoint ends with it.
    pub open spec fn ends_line(&self, item: Item) -> bool {
        let u = item_entry(item) as int;
        self.in_last_transaction(item) && !self.extended(
            self.transfer_entries()[u].spec_endpoint_id() as int,
            u,
        )
    }

    /// Column `i` of the item's row is crossed by its connector.
    pub open spec fn thru(&self, item: Item, i: int) -> bool {
        let u = item_entry(item) as int;
        match item {
            Item::Transfer(_) => exists|j: int|
                0 <= j <= i && {
                    let st = endpoint_state_of(#[trigger] self.snapshot(u)[j]);
                    st == EndpointState::Starting || st == EndpointState::Ending
                },
            _ => self.transfer_entries()[u].spec_endpoint_id() <= i,
        }
    }

    /// The glyph in column `i` of the item's row, for a column that the
    /// item's snapshot covers.
    pub open spec fn glyph(&self, item: Item, i: int) -> Seq<char> {
        let u = item_entry(item) as int;
        let state = endpoint_state_of(self.snapshot(u)[i]);
        let on = i == self.transfer_entries()[u].spec_endpoint_id();
        let active = state != EndpointState::Idle;
        match item {
            Item::Transfer(_) => transfer_glyph(state, self.thru(item, i)),
            Item::Transaction(..) => transaction_glyph(
                on,
                active,
                self.thru(item, i),
                self.ends_line(item),
            ),
            Item::Packet(..) => packet_glyph(
                on,
                active,
                self.ends_line(item) && self.is_last_packet(item),
            ),
        }
    }

    /// The glyphs of the first `k` columns.
    pub open spec fn glyphs(&self, item: Item, k: nat) -> Seq<char>
        decreases k,
    {
        if k == 0 {
            Seq::empty()
        } else {
            self.glyphs(item, (k - 1) as nat) + self.glyph(item, k - 1)
        }
    }

    /// `k` columns of endpoints that did not exist yet at the item.
    pub open spec fn fill(item: Item, k: nat) -> Seq<char>
        decreases k,
    {
        if k == 0 {
            Seq::empty()
        } else {
            Self::fill(item, (k - 1) as nat) + if item is Packet { " "@ } else { "─"@ }
        }
    }

    /// What ends the item's row.
    pub open spec fn row_end(&self, item: Item) -> Seq<char> {
        match item {
            Item::Transfer(u) => if self.transfer_entries()[u as int].spec_is_start() {
                "─"@
            } else {
                "──□ "@
            },
            Item::Transaction(..) => "───"@,
            Item::Packet(..) => if self.is_last_packet(item) { "    └──"@ } else { "    ├──"@ },
        }
    }

    /// The connector string drawn before the item's summary.
    pub open spec fn connectors_of(&self, item: Item) -> Seq<char> {
        let u = item_entry(item) as int;
        let s = self.snapshot(u).len();
        let n = self.n_endpoints();
        self.glyphs(item, s) + Self::fill(item, if n > s { (n - s) as nat } else { 0 })
            + self.row_end(item)
    }

    proof fn lemma_snapshot(&self, k: int)
        requires
            self.wf(),
            0 <= k < self.transfer_index@.len(),
        ensures
            ({
                let r = index_range(
                    self.endpoint_state_index@,
                    self.endpoint_states@.len() as u64,
                    k,
                );
                r.0 <= r.1 <= self.endpoint_states@.len()
            }),
    {
        self.endpoint_state_index.lemma_wf();
        assert(self.endpoint_state_index@[k] <= self.endpoint_states@.len());
        if k + 1 < self.endpoint_state_index@.len() {
            assert(self.endpoint_state_index@[k + 1] <= self.endpoint_states@.len());
        }
    }

    fn get_endpoint_state(&self, index: u64) -> (r: Vec<u8>)
        requires
            self.wf(),
            index < self.transfer_entries().len(),
        ensures
            r@ == self.snapshot(index as int),
    {
        proof { self.lemma_snapshot(index as int); }
        let range = get_index_range(
            &self.endpoint_state_index,
            self.endpoint_states.len() as u64,
            index,
        );
        let mut r: Vec<u8> = Vec::new();
        let mut i: u64 = range.start;
        let n = self.endpoint_states.len();
        while i < range.end
            invariant
                n == self.endpoint_states@.len(),
                range.start <= i <= range.end <= self.endpoint_states@.len(),
                r@ == self.endpoint_states@.subrange(range.start as int, i as int),
            decreases range.end - i,
        {
            r.push(self.endpoint_states[i as usize]);
            assert(r@ =~= self.endpoint_states@.subrange(range.start as int, i + 1));
            i = i + 1;
        }
        r
    }

    fn transfer_extended(&self, endpoint_id: usize, index: u64) -> (r: bool)
        requires
            self.wf(),
            index < self.transfer_entries().len(),
        ensures
            r == self.extended(endpoint_id as int, index as int),
    {
        let count = self.transfer_index.len() as u64;
        if index + 1 >= count {
            return false;
        }
        let state = self.get_endpoint_state(index + 1);
        if endpoint_id >= state.len() {
            false
        } else {
            EndpointState::from_u8(state[endpoint_id]) == EndpointState::Ongoing
        }
    }
}

impl Capture {
    /// The glyphs drawn left of the item's summary: one column per
    /// endpoint, then the row's end.
    pub fn get_connectors(&self, item: &Item) -> (r: String)
        requires
            self.wf(),
            self.valid_item(*item),
            !(*item is Transfer) ==> self.transfer_entries()[item_entry(
                *item,
            ) as int].spec_is_start(),
        ensures
            r@ == self.connectors_of(*item),
    {
        proof { self.lemma_ranges(); }
        let endpoint_count = self.endpoints.len();
        let transfer_index_id = match item {
            Item::Transfer(i) => *i,
            Item::Transaction(i, _) => *i,
            Item::Packet(i, ..) => *i,
        };
        let ghost u = transfer_index_id as int;
        let entry = self.entry(transfer_index_id);
        let endpoint_id = entry.endpoint_id() as usize;
        let endpoint_state = self.get_endpoint_state(transfer_index_id);
        let state_length = endpoint_state.len();
        let extended = self.transfer_extended(endpoint_id, transfer_index_id);
        let last_transaction = match item {
            Item::Transfer(..) => false,
            Item::Transaction(_, transaction_id) | Item::Packet(_, transaction_id, _) => {
                let ep_data = &self.endpoint_data[endpoint_id];
                let range = get_index_range(
                    &ep_data.transfer_index,
                    ep_data.transaction_ids.len(),
                    entry.transfer_id(),
                );
                assert((range.start, range.end) == self.transfer_range(u));
                let last_transaction_id = ep_data.transaction_ids.get(range.end - 1);
                assert(self.transfer_transactions(u).last() == last_transaction_id);
                *transaction_id == last_transaction_id
            },
        };
        let last_packet = match item {
            Item::Packet(_, transaction_id, packet_id) => {
                let range = get_index_range(
                    &self.transaction_index,
                    self.packet_index.len(),
                    *transaction_id,
                );
                assert((range.start, range.end) == self.transaction_range(*transaction_id as int));
                *packet_id == range.end - 1
            },
            _ => false,
        };
        let last = last_transaction && !extended;
        assert(last == self.ends_line(*item));
        assert(last_packet == self.is_last_packet(*item));
        let mut connectors = String::new();
        let mut thru = false;
        let mut i: usize = 0;
        while i < state_length
            invariant
                self.wf(),
                self.valid_item(*item),
                u == item_entry(*item),
                u < self.transfer_entries().len(),
                endpoint_id == self.transfer_entries()[u].spec_endpoint_id(),
                endpoint_state@ == self.snapshot(u),
                state_length == endpoint_state@.len(),
                last == self.ends_line(*item),
                last_packet == self.is_last_packet(*item),
                0 <= i <= state_length,
                connectors@ == self.glyphs(*item, i as nat),
                i == 0 ==> !thru,
                i > 0 ==> thru == self.thru(*item, i - 1),
            decreases state_length - i,
        {
            let state = EndpointState::from_u8(endpoint_state[i]);
            let active = state != EndpointState::Idle;
            let on_endpoint = i == endpoint_id;
            let mark = match item {
                Item::Transfer(..) => state == EndpointState::Starting || state
                    == EndpointState::Ending,
                _ => on_endpoint,
            };
            proof {
                if *item is Transfer {
                    if mark {
                        assert(self.snapshot(u)[i as int] == endpoint_state@[i as int]);
                        assert(self.thru(*item, i as int));
                    } else if thru {
                        let j = choose|j: int|
                            0 <= j <= i - 1 && {
                                let st = endpoint_state_of(#[trigger] self.snapshot(u)[j]);
                                st == EndpointState::Starting || st == EndpointState::Ending
                            };
                        assert(self.thru(*item, i as int));
                    } else {
                        assert forall|j: int| 0 <= j <= i implies !{
                            let st = endpoint_state_of(#[trigger] self.snapshot(u)[j]);
                            st == EndpointState::Starting || st == EndpointState::Ending
                        } by {
                            if j < i {
                                assert(!self.thru(*item, i - 1));
                            }
                        }
                        assert(!self.thru(*item, i as int));
                    }
                }
            }
            thru = thru || mark;
            let glyph = match item {
                Item::Transfer(..) => transfer_glyph_str(state, thru),
                Item::Transaction(..) => transaction_glyph_str(on_endpoint, active, thru, last),
                Item::Packet(..) => packet_glyph_str(on_endpoint, active, last && last_packet),
            };
            connectors.append(glyph);
            i = i + 1;
        }
        let ghost s = state_length as nat;
        let mut j: usize = state_length;
        while j < endpoint_count
            invariant
                state_length <= j <= endpoint_count || (j == state_length && endpoint_count
                    < state_length),
                connectors@ == self.glyphs(*item, s) + Self::fill(
                    *item,
                    (j - state_length) as nat,
                ),
            decreases endpoint_count - j,
        {
            match item {
                Item::Packet(..) => connectors.append(" "),
                _ => connectors.append("─"),
            }
            proof {
                assert(connectors@ =~= self.glyphs(*item, s) + Self::fill(
                    *item,
                    (j + 1 - state_length) as nat,
                ));
            }
            j = j + 1;
        }
        let row_end = match item {
            Item::Transfer(_) => if entry.is_start() {
                "─"
            } else {
                "──□ "
            },
            Item::Transaction(..) => "───",
            Item::Packet(..) => if last_packet {
                "    └──"
            } else {
                "    ├──"
            },
        };
        connectors.append(row_end);
        connectors
    }
}

impl Capture {
    /// The global ids of the transactions on endpoint `i`, in order.
    pub open spec fn endpoint_transactions(&self, i: int) -> Seq<u64> {
        self.endpoint_data@[i].transaction_ids@
    }

    /// For each transfer on endpoint `i`, where it starts in
    /// `endpoint_transactions(i)`.
    pub open spec fn endpoint_transfers(&self, i: int) -> Seq<u64> {
        self.endpoint_data@[i].transfer_index@
    }

    /// For each transfer entry, where its snapshot of endpoint states starts.
    pub open spec fn snapshot_offsets(&self) -> Seq<u64> {
        self.endpoint_state_index@
    }
}

/// Every offset table of a well-formed capture is non-decreasing: packet
/// offsets, transaction starts, top-level items, snapshot offsets, and each
/// endpoint's transaction ids and transfer starts.
pub proof fn lemma_indices_non_decreasing(c: &Capture)
    requires
        c.wf(),
    ensures
        non_decreasing(c.packet_offsets()),
        non_decreasing(c.transaction_starts()),
        non_decreasing(c.items()),
        non_decreasing(c.snapshot_offsets()),
        forall|i: int| 0 <= i < c.n_endpoints() ==> non_decreasing(#[trigger] c.endpoint_transactions(i))
            && non_decreasing(c.endpoint_transfers(i)),
{
    c.packet_index.lemma_wf();
    c.transaction_index.lemma_wf();
    c.item_index.lemma_wf();
    c.endpoint_state_index.lemma_wf();
    assert forall|i: int| 0 <= i < c.n_endpoints() implies non_decreasing(
        #[trigger] c.endpoint_transactions(i),
    ) && non_decreasing(c.endpoint_transfers(i)) by {
        let d = c.endpoint_data@[i];
        assert(endpoint_ok(d, c.transaction_index@.len(), c.transfer_index@.len()));
        d.transaction_ids.lemma_wf();
        d.transfer_index.lemma_wf();
    }
}

/// Each endpoint's transaction ids strictly increase: every transaction is
/// appended once, in the order the transactions were recorded, and names a
/// recorded transaction.
pub proof fn lemma_endpoint_transactions_increase(c: &Capture)
    requires
        c.wf(),
    ensures
        forall|i: int| 0 <= i < c.n_endpoints() ==> strictly_increasing(
            #[trigger] c.endpoint_transactions(i),
        ),
        forall|i: int, j: int| 0 <= i < c.n_endpoints() && 0 <= j < c.endpoint_transactions(i).len()
            ==> #[trigger] c.endpoint_transactions(i)[j] < c.transaction_starts().len(),
{
    assert forall|i: int| 0 <= i < c.n_endpoints() implies strictly_increasing(
        #[trigger] c.endpoint_transactions(i),
    ) by {
        assert(endpoint_ok(c.endpoint_data@[i], c.transaction_index@.len(), c.transfer_index@.len()));
    }
    assert forall|i: int, j: int| 0 <= i < c.n_endpoints() && 0 <= j < c.endpoint_transactions(i).len()
        implies #[trigger] c.endpoint_transactions(i)[j] < c.transaction_starts().len() by {
        assert(endpoint_ok(c.endpoint_data@[i], c.transaction_index@.len(), c.transfer_index@.len()));
    }
}

/// A transfer entry has no children exactly when it is the entry that ends
/// a transfer: every transfer holds at least one transaction.
pub proof fn lemma_count_zero_iff_end(c: &Capture, u: u64)
    requires
        c.wf(),
        u < c.transfer_entries().len(),
    ensures
        c.count_of(Option::Some(Item::Transfer(u))) == 0 <==> !c.transfer_entries()[u as int].spec_is_start(),
{
    c.lemma_ranges();
    assert(c.transfer_index@[u as int] == c.transfer_entries()[u as int]);
}

impl Capture {
    /// The endpoint-state bytes of all snapshots, one after another.
    pub open spec fn states(&self) -> Seq<u8> {
        self.endpoint_states@
    }

    /// For each transfer entry, how many endpoints existed when it was
    /// added.
    pub open spec fn endpoints_at_entry(&self) -> Seq<nat> {
        self.snapshot_lengths@
    }

    /// The total length of the first `m` snapshots.
    pub open spec fn snapshot_sum(&self, m: nat) -> nat
        decreases m,
    {
        if m == 0 {
            0
        } else {
            self.snapshot_sum((m - 1) as nat) + self.snapshot(m - 1).len()
        }
    }

    proof fn lemma_snapshot_len(&self, k: int)
        requires
            self.wf(),
            0 <= k < self.transfer_index@.len(),
        ensures
            self.snapshot(k).len() == self.snapshot_lengths@[k],
    {
        self.lemma_snapshot(k);
        if k + 1 < self.endpoint_state_index@.len() {
            assert(self.endpoint_state_index@[k + 1] == self.endpoint_state_index@[k]
                + self.snapshot_lengths@[k]);
        }
    }

    proof fn lemma_snapshot_sum(&self, m: nat)
        requires
            self.wf(),
            0 < m <= self.transfer_index@.len(),
        ensures
            self.snapshot_sum(m) == self.endpoint_state_index@[m - 1] + self.snapshot_lengths@[m - 1],
        decreases m,
    {
        self.lemma_snapshot_len(m - 1);
        assert(self.snapshot_sum(m) == self.snapshot_sum((m - 1) as nat) + self.snapshot(m - 1).len());
        if m == 1 {
            assert(self.lengths_ok());
            assert(self.endpoint_state_index@[0] == 0);
            assert(self.snapshot_sum(0) == 0);
        }
        if m > 1 {
            self.lemma_snapshot_sum((m - 1) as nat);
            assert(self.endpoint_state_index@[(m - 2) + 1] == self.endpoint_state_index@[m - 2]
                + self.snapshot_lengths@[m - 2]);
        }
    }
}

/// There is one snapshot offset per transfer entry, and the snapshots
/// together make up exactly the stored endpoint-state bytes.
pub proof fn lemma_snapshots_cover_states(c: &Capture)
    requires
        c.wf(),
    ensures
        c.snapshot_offsets().len() == c.transfer_entries().len(),
        c.states().len() == c.snapshot_sum(c.transfer_entries().len()),
{
    let m = c.transfer_index@.len();
    if m > 0 {
        c.lemma_snapshot_sum(m);
    }
}

/// The snapshot of each transfer entry holds one state per endpoint that
/// existed when the entry was added; endpoints are never removed, so later
/// snapshots are never shorter, and none is longer than the endpoint list.
pub proof fn lemma_snapshot_lengths(c: &Capture)
    requires
        c.wf(),
    ensures
        c.endpoints_at_entry().len() == c.transfer_entries().len(),
        forall|k: int| 0 <= k < c.transfer_entries().len() ==> #[trigger] c.snapshot(k).len()
            == c.endpoints_at_entry()[k],
        forall|k: int| 0 <= k < c.transfer_entries().len() ==> 2 <= #[trigger] c.endpoints_at_entry()[k]
            <= c.n_endpoints(),
        forall|k: int, j: int| 0 <= k <= j < c.transfer_entries().len() ==> #[trigger] c.endpoints_at_entry()[k]
            <= #[trigger] c.endpoints_at_entry()[j],
{
    assert forall|k: int| 0 <= k < c.transfer_entries().len() implies #[trigger] c.snapshot(k).len()
        == c.endpoints_at_entry()[k] by {
        c.lemma_snapshot_len(k);
    }
}

impl Default for Capture {
    fn default() -> (r: Capture)
        ensures
            r.wf(),
            r.data().len() == 0,
            r.transfer_entries().len() == 0,
            r.items().len() == 0,
            r.n_endpoints() == 2,
    {
        Capture::new()
    }
}

/// The storage used by a capture, as the lines of a report.
pub struct StorageSummary {
    pub packet_data: String,
    pub packet_index: String,
    pub transaction_index: String,
    pub transfer_index: String,
    pub endpoint_states: String,
    pub endpoint_state_index: String,
    pub endpoint_transactions: String,
    pub endpoint_transfers: String,
    /// Bytes of index data kept beside the packet data.
    pub overhead: u64,
    /// Bytes of packet data.
    pub data_size: u64,
}

/// Totals over the first `k` endpoint records: values, entries and bytes
/// of their transaction lists, then of their transfer lists, and `base`
/// plus the bytes of every list, all saturating.
pub open spec fn endpoint_totals(d: Seq<EndpointData>, k: nat, base: u64) -> (u64, u64, u64, u64, u64, u64, u64)
    decreases k,
{
    if k == 0 {
        (0, 0, 0, 0, 0, 0, base)
    } else {
        let p = endpoint_totals(d, (k - 1) as nat, base);
        let e = d[k - 1];
        let trx_size = sat_add(p.2, e.transaction_ids.spec_size());
        let xfr_size = sat_add(p.5, e.transfer_index.spec_size());
        (
            sat_add(p.0, e.transaction_ids@.len() as u64),
            sat_add(p.1, e.transaction_ids@.len() as u64),
            trx_size,
            sat_add(p.3, e.transfer_index@.len() as u64),
            sat_add(p.4, e.transfer_index@.len() as u64),
            xfr_size,
            sat_add(p.6, sat_add(e.transaction_ids.spec_size(), e.transfer_index.spec_size())),
        )
    }
}

/// Addition that stops at `u64::MAX`.
pub open spec fn sat_add(a: u64, b: u64) -> u64 {
    if a + b > u64::MAX { u64::MAX } else { (a + b) as u64 }
}

impl Capture {
    closed spec fn base_overhead(&self) -> u64 {
        sat_add(
            sat_add(
                sat_add(
                    sat_add(self.packet_index.spec_size(), self.transaction_index.spec_size()),
                    sat_mul8(self.transfer_index@.len()),
                ),
                sat_len(self.endpoint_states@.len()),
            ),
            self.endpoint_state_index.spec_size(),
        )
    }

    /// The per-endpoint totals of the storage report, and its overhead.
    pub closed spec fn report_totals(&self) -> (u64, u64, u64, u64, u64, u64, u64) {
        endpoint_totals(self.endpoint_data@, self.endpoint_data@.len(), self.base_overhead())
    }

    /// How much each stored structure takes.
    pub fn storage_summary(&self) -> (r: StorageSummary)
        requires
            self.wf(),
        ensures
            r.packet_data@ == size_text(sat_len(self.data().len())),
            r.packet_index@ == grouped(self.packet_offsets().len()) + " values in "@ + grouped(
                self.packet_offsets().len(),
            ) + " entries, "@ + size_text(sat_mul8(self.packet_offsets().len())),
            r.transaction_index@ == grouped(self.transaction_starts().len()) + " values in "@
                + grouped(self.transaction_starts().len()) + " entries, "@ + size_text(
                sat_mul8(self.transaction_starts().len()),
            ),
            r.transfer_index@ == grouped(self.transfer_entries().len()) + " entries, "@ + size_text(
                sat_mul8(self.transfer_entries().len()),
            ),
            r.endpoint_states@ == grouped(self.states().len()) + " entries, "@ + size_text(
                sat_len(self.states().len()),
            ),
            r.endpoint_state_index@ == grouped(self.snapshot_offsets().len()) + " values in "@
                + grouped(self.snapshot_offsets().len()) + " entries, "@ + size_text(
                sat_mul8(self.snapshot_offsets().len()),
            ),
            ({
                let t = self.report_totals();
                &&& r.endpoint_transactions@ == grouped(t.0 as nat) + " values in "@ + grouped(
                    t.1 as nat,
                ) + " entries, "@ + size_text(t.2)
                &&& r.endpoint_transfers@ == grouped(t.3 as nat) + " values in "@ + grouped(
                    t.4 as nat,
                ) + " entries, "@ + size_text(t.5)
                &&& r.overhead == t.6
            }),
            r.data_size == self.data().len(),
    {
        let transfer_len = self.transfer_index.len() as u64;
        let transfer_size = if transfer_len > u64::MAX / 8 { u64::MAX } else { transfer_len * 8 };
        let states_len = self.endpoint_states.len() as u64;
        let base = self.packet_index.size().saturating_add(self.transaction_index.size())
            .saturating_add(transfer_size).saturating_add(states_len).saturating_add(
            self.endpoint_state_index.size(),
        );
        let mut totals: (u64, u64, u64, u64, u64, u64, u64) = (0, 0, 0, 0, 0, 0, base);
        let mut k: usize = 0;
        while k < self.endpoint_data.len()
            invariant
                0 <= k <= self.endpoint_data@.len(),
                base == self.base_overhead(),
                totals == endpoint_totals(self.endpoint_data@, k as nat, base),
            decreases self.endpoint_data@.len() - k,
        {
            let e = &self.endpoint_data[k];
            let trx_size = totals.2.saturating_add(e.transaction_ids.size());
            let xfr_size = totals.5.saturating_add(e.transfer_index.size());
            totals = (
                totals.0.saturating_add(e.transaction_ids.len()),
                totals.1.saturating_add(e.transaction_ids.entry_count()),
                trx_size,
                totals.3.saturating_add(e.transfer_index.len()),
                totals.4.saturating_add(e.transfer_index.entry_count()),
                xfr_size,
                totals.6.saturating_add(
                    e.transaction_ids.size().saturating_add(e.transfer_index.size()),
                ),
            );
            k = k + 1;
        }
        let mut endpoint_transactions = fmt_count(totals.0);
        endpoint_transactions.append(" values in ");
        let c1 = fmt_count(totals.1);
        endpoint_transactions.append(c1.as_str());
        endpoint_transactions.append(" entries, ");
        let s1 = fmt_size(totals.2);
        endpoint_transactions.append(s1.as_str());
        let mut endpoint_transfers = fmt_count(totals.3);
        endpoint_transfers.append(" values in ");
        let c2 = fmt_count(totals.4);
        endpoint_transfers.append(c2.as_str());
        endpoint_transfers.append(" entries, ");
        let s2 = fmt_size(totals.5);
        endpoint_transfers.append(s2.as_str());
        StorageSummary {
            packet_data: fmt_size(self.packet_data.len() as u64),
            packet_index: fmt_index(&self.packet_index),
            transaction_index: fmt_index(&self.transaction_index),
            transfer_index: fmt_vec(transfer_len, transfer_size),
            endpoint_states: fmt_vec(states_len, states_len),
            endpoint_state_index: fmt_index(&self.endpoint_state_index),
            endpoint_transactions,
            endpoint_transfers,
            overhead: totals.6,
            data_size: self.packet_data.len() as u64,
        }
    }
}

/// Eight bytes per entry, stopping at `u64::MAX`.
pub open spec fn sat_mul8(n: nat) -> u64 {
    if n * 8 > u64::MAX { u64::MAX } else { (n * 8) as u64 }
}

/// A length as a `u64`, stopping at `u64::MAX`.
pub open spec fn sat_len(n: nat) -> u64 {
    if n > u64::MAX { u64::MAX } else { n as u64 }
}

/// Position `x` lies in part `k` of the offset table `s`, whose last part
/// ends at `end`.
pub open spec fn in_part(s: Seq<u64>, end: u64, k: int, x: int) -> bool {
    &&& 0 <= k < s.len()
    &&& index_range(s, end, k).0 <= x
    &&& x < index_range(s, end, k).1
}

proof fn lemma_find_part(s: Seq<u64>, end: u64, x: int, k: int) -> (r: int)
    requires
        non_decreasing(s),
        0 <= k < s.len(),
        s[k] <= x < end,
    ensures
        in_part(s, end, r, x),
    decreases s.len() - k,
{
    if k + 1 < s.len() && s[k + 1] <= x {
        lemma_find_part(s, end, x, k + 1)
    } else {
        k
    }
}

/// An offset table that starts at zero splits `0..end` into its parts:
/// every position lies in exactly one.
proof fn lemma_parts(s: Seq<u64>, end: u64, x: int)
    requires
        non_decreasing(s),
        s.len() > 0,
        s[0] == 0,
        0 <= x < end,
    ensures
        exists|k: int| #[trigger] in_part(s, end, k, x),
        forall|k1: int, k2: int| #[trigger] in_part(s, end, k1, x) && #[trigger] in_part(s, end, k2, x) ==> k1 == k2,
{
    let k = lemma_find_part(s, end, x, 0);
    assert(in_part(s, end, k, x));
    assert forall|k1: int, k2: int| #[trigger] in_part(s, end, k1, x) && #[trigger] in_part(s, end, k2, x) implies k1
        == k2 by {
        if k1 < k2 {
            assert(s[k1 + 1] <= s[k2]);
        } else if k2 < k1 {
            assert(s[k2 + 1] <= s[k1]);
        }
    }
}

/// Every stored packet lies in exactly one recorded transaction, once the
/// first transaction has been recorded.
pub proof fn lemma_packet_in_one_transaction(c: &Capture, w: int)
    requires
        c.wf(),
        c.transaction_starts().len() > 0,
        0 <= w < c.packet_offsets().len(),
    ensures
        exists|v: int| #[trigger] in_part(c.transaction_starts(), c.packet_offsets().len() as u64, v, w),
        forall|v1: int, v2: int|
            #[trigger] in_part(c.transaction_starts(), c.packet_offsets().len() as u64, v1, w) && #[trigger] in_part(
                c.transaction_starts(),
                c.packet_offsets().len() as u64,
                v2,
                w,
            ) ==> v1 == v2,
{
    c.transaction_index.lemma_wf();
    lemma_parts(c.transaction_index@, c.packet_index@.len() as u64, w);
}

impl Capture {
    /// Transaction `v` is one of the transactions of transfer `t` on
    /// endpoint `i`.
    pub open spec fn transaction_in_transfer(&self, v: int, i: int, t: int) -> bool {
        &&& 0 <= i < self.n_endpoints()
        &&& exists|j: int|
            0 <= j < self.endpoint_transactions(i).len() && #[trigger] self.endpoint_transactions(
                i,
            )[j] == v && in_part(
                self.endpoint_transfers(i),
                self.endpoint_transactions(i).len() as u64,
                t,
                j,
            )
    }
}

/// Every recorded transaction belongs to exactly one transfer of exactly
/// one endpoint.
pub proof fn lemma_transaction_in_one_transfer(c: &Capture, v: int)
    requires
        c.wf(),
        0 <= v < c.transaction_starts().len(),
    ensures
        exists|i: int, t: int| #[trigger] c.transaction_in_transfer(v, i, t),
        forall|i1: int, t1: int, i2: int, t2: int|
            #[trigger] c.transaction_in_transfer(v, i1, t1) && #[trigger] c.transaction_in_transfer(v, i2, t2) ==> i1 == i2
                && t1 == t2,
{
    let d = c.endpoint_data@;
    let n = c.transaction_index@.len();
    reveal(owns_all);
    assert(owned(d, v));
    let (i, j) = choose|i: int, j: int|
        0 <= i < d.len() && 0 <= j < d[i].transaction_ids@.len() && #[trigger] d[i].transaction_ids@[j]
            == v;
    assert(endpoint_ok(d[i], n, c.transfer_index@.len()));
    d[i].transfer_index.lemma_wf();
    let ids = c.endpoint_transactions(i);
    lemma_parts(c.endpoint_transfers(i), ids.len() as u64, j);
    let t = choose|t: int| #[trigger] in_part(c.endpoint_transfers(i), ids.len() as u64, t, j);
    assert(c.endpoint_transactions(i)[j] == v);
    assert(c.transaction_in_transfer(v, i, t));
    assert forall|i1: int, t1: int, i2: int, t2: int|
        #[trigger] c.transaction_in_transfer(v, i1, t1) && #[trigger] c.transaction_in_transfer(v, i2, t2) implies i1 == i2
        && t1 == t2 by {
        let j1 = choose|j1: int|
            0 <= j1 < c.endpoint_transactions(i1).len() && #[trigger] c.endpoint_transactions(i1)[j1]
                == v && in_part(
                c.endpoint_transfers(i1),
                c.endpoint_transactions(i1).len() as u64,
                t1,
                j1,
            );
        let j2 = choose|j2: int|
            0 <= j2 < c.endpoint_transactions(i2).len() && #[trigger] c.endpoint_transactions(i2)[j2]
                == v && in_part(
                c.endpoint_transfers(i2),
                c.endpoint_transactions(i2).len() as u64,
                t2,
                j2,
            );
        if i1 != i2 {
            assert(d[i1].transaction_ids@[j1] != d[i2].transaction_ids@[j2]);
        }
        assert(i1 == i2);
        assert(endpoint_ok(d[i1], n, c.transfer_index@.len()));
        if j1 < j2 {
            assert(d[i1].transaction_ids@[j1] < d[i1].transaction_ids@[j2]);
        } else if j2 < j1 {
            assert(d[i1].transaction_ids@[j2] < d[i1].transaction_ids@[j1]);
        }
        assert(j1 == j2);
        d[i1].transfer_index.lemma_wf();
        lemma_parts(c.endpoint_transfers(i1), c.endpoint_transactions(i1).len() as u64, j1);
    }
}

impl Capture {
    /// Endpoint `e` has a transfer in progress.
    pub open spec fn transfer_open(&self, e: int) -> bool {
        self.endpoint_data@[e].transaction_count > 0
    }
}

/// Transfer entries of each endpoint alternate. Its first entry starts its
/// transfer 0; the next entry after a start is the end of that transfer,
/// which names the transfer to come (one more); the next entry after an end
/// starts the transfer it named. An endpoint whose last entry is a start
/// has that transfer still open, and one whose last entry is an end has
/// none open.
pub proof fn lemma_entries_alternate(c: &Capture)
    requires
        c.wf(),
    ensures
        forall|k: int| 0 <= k < c.transfer_entries().len() ==> #[trigger] follows(
            c.transfer_entries(),
            k,
        ),
        forall|e: int| 0 <= e < c.n_endpoints() ==> {
            let s = c.transfer_entries();
            let k = last_for(s, e as u64, s.len() as int);
            k >= 0 ==> (s[k].spec_is_start() <==> #[trigger] c.transfer_open(e))
        },
{
    reveal(alternation_ok);
    assert forall|e: int| 0 <= e < c.n_endpoints() implies {
        let s = c.transfer_entries();
        let k = last_for(s, e as u64, s.len() as int);
        k >= 0 ==> (s[k].spec_is_start() <==> #[trigger] c.transfer_open(e))
    } by {
        assert(tail_ok(c.transfer_index@, e as u64, c.endpoint_data@[e], true));
    }
}

/// The snapshot of each transfer entry shows the entry's own endpoint as
/// starting (start entry) or ending (end entry), so the entry's row draws
/// `○` or `└` in that endpoint's column.
pub proof fn lemma_entry_marks_own_endpoint(c: &Capture, u: int)
    requires
        c.wf(),
        0 <= u < c.transfer_entries().len(),
    ensures
        ({
            let e = c.transfer_entries()[u];
            let ep = e.spec_endpoint_id() as int;
            &&& ep < c.snapshot(u).len()
            &&& endpoint_state_of(c.snapshot(u)[ep]) == if e.spec_is_start() {
                EndpointState::Starting
            } else {
                EndpointState::Ending
            }
            &&& c.glyph(Item::Transfer(u as u64), ep) == if e.spec_is_start() {
                "○"@
            } else {
                "└"@
            }
        }),
{
    reveal(marked);
    assert(c.transfer_index@[u] == c.transfer_entries()[u]);
}

} // verus!
