use vstd::prelude::*;
use crate::fsm::EndpointState;

verus! {

/// The glyph of one endpoint's column on a transfer row.
pub open spec fn transfer_glyph(state: EndpointState, thru: bool) -> Seq<char> {
    match state {
        EndpointState::Idle => " "@,
        EndpointState::Starting => "○"@,
        EndpointState::Ongoing => if thru { "┼"@ } else { "│"@ },
        EndpointState::Ending => "└"@,
    }
}

/// The glyph of one endpoint's column on a transaction row.
pub open spec fn transaction_glyph(on_endpoint: bool, active: bool, thru: bool, last: bool) -> Seq<
    char,
> {
    if on_endpoint {
        if last { "└"@ } else { "├"@ }
    } else if active {
        if thru { "┼"@ } else { "│"@ }
    } else {
        if thru { "─"@ } else { " "@ }
    }
}

/// The glyph of one endpoint's column on a packet row.
pub open spec fn packet_glyph(on_endpoint: bool, active: bool, last: bool) -> Seq<char> {
    if on_endpoint {
        if last { " "@ } else { "│"@ }
    } else if active {
        "│"@
    } else {
        " "@
    }
}

pub fn transfer_glyph_str(state: EndpointState, thru: bool) -> (r: &'static str)
    ensures
        r@ == transfer_glyph(state, thru),
{
    match state {
        EndpointState::Idle => " ",
        EndpointState::Starting => "○",
        EndpointState::Ongoing => if thru { "┼" } else { "│" },
        EndpointState::Ending => "└",
    }
}

pub fn transaction_glyph_str(on_endpoint: bool, active: bool, thru: bool, last: bool) -> (r:
    &'static str)
    ensures
        r@ == transaction_glyph(on_endpoint, active, thru, last),
{
    if on_endpoint {
        if last { "└" } else { "├" }
    } else if active {
        if thru { "┼" } else { "│" }
    } else {
        if thru { "─" } else { " " }
    }
}

pub fn packet_glyph_str(on_endpoint: bool, active: bool, last: bool) -> (r: &'static str)
    ensures
        r@ == packet_glyph(on_endpoint, active, last),
{
    if on_endpoint {
        if last { " " } else { "│" }
    } else if active {
        "│"
    } else {
        " "
    }
}

} // verus!
