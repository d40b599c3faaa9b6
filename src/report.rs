use vstd::prelude::*;
use vstd::string::*;
use crate::index::MonotonicIndex;
use crate::text::{hex_digit};

verus! {

/// The three decimal digits of `k`, zero padded.
pub open spec fn three_digits(k: nat) -> Seq<char> {
    seq![hex_digit((k / 100) % 10), hex_digit((k / 10) % 10), hex_digit(k % 10)]
}

/// Decimal digits of `n` grouped in threes by commas, as English writes
/// counts.
pub open spec fn grouped(n: nat) -> Seq<char>
    decreases n,
{
    if n < 1000 {
        crate::text::dec(n)
    } else {
        grouped(n / 1000) + ","@ + three_digits(n % 1000)
    }
}

/// A byte count in binary units, as humansize writes it.
pub uninterp spec fn size_text(n: u64) -> Seq<char>;

/// Relies on num_format's `ToFormattedString::to_formatted_string` with
/// `Locale::en`: decimal digits grouped in threes, separated by ",".
#[verifier::external_body]
pub fn fmt_count(count: u64) -> (r: String)
    ensures
        r@ == grouped(count as nat),
{
    num_format::ToFormattedString::to_formatted_string(&count, &num_format::Locale::en)
}

/// Relies on humansize's `FileSize::file_size` with `file_size_opts::BINARY`,
/// which returns `Ok` for every unsigned value and depends on it alone.
#[verifier::external_body]
pub fn fmt_size(size: u64) -> (r: String)
    ensures
        r@ == size_text(size),
{
    humansize::FileSize::file_size(&size, humansize::file_size_opts::BINARY).unwrap()
}

/// One line of the storage report for an offset table.
pub fn fmt_index(idx: &MonotonicIndex) -> (r: String)
    ensures
        r@ == grouped(idx@.len()) + " values in "@ + grouped(idx@.len()) + " entries, "@
            + size_text(idx.spec_size()),
{
    let mut s = fmt_count(idx.len());
    s.append(" values in ");
    let entries = fmt_count(idx.entry_count());
    s.append(entries.as_str());
    s.append(" entries, ");
    let size = fmt_size(idx.size());
    s.append(size.as_str());
    s
}

/// One line of the storage report for a table of `len` entries taking
/// `size` bytes.
pub fn fmt_vec(len: u64, size: u64) -> (r: String)
    ensures
        r@ == grouped(len as nat) + " entries, "@ + size_text(size),
{
    let mut s = fmt_count(len);
    s.append(" entries, ");
    let size = fmt_size(size);
    s.append(size.as_str());
    s
}

} // verus!
