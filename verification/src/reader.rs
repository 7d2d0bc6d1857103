//! The minimal reader capability over one package-indexed counter source,
//! left open for callers to implement (a file-backed reader, a mock): a
//! source either exists at an index or it does not, and an existing source
//! reports the raw energy elapsed since it was opened.

use vstd::prelude::*;

verus! {

/// One package-indexed counter source. Implementations state at which
/// indices a source exists; `now` opens exactly those.
pub trait RaplReader: Sized {
    /// At which package indices this kind of source exists.
    spec fn available(package_id: u8) -> bool;

    /// Opens the source at one package index: a reader exactly where one is
    /// available.
    fn now(package_id: u8) -> (r: Option<Self>)
        ensures
            r is Some <==> Self::available(package_id),
    ;

    /// The raw energy elapsed since the reader was opened. What it returns
    /// depends on the counter hardware and the clock, so nothing more is
    /// promised of it.
    fn elapsed(&self) -> u64;

    /// The stable label this reader reports under.
    fn label(&self) -> String;
}

/// Opens readers at indices 0, 1, 2, ... until the first index where none is
/// available: every opened index was available, and (short of the scan's cap
/// of 255) the index just past the result is the gap that stopped the scan.
/// An unavailable index 0 yields an empty collection.
#[verifier::loop_isolation(false)]
pub fn packages<T: RaplReader>() -> (r: Vec<T>)
    ensures
        r@.len() <= 255,
        forall|i: int| 0 <= i < r@.len() ==> #[trigger] T::available(i as u8),
        r@.len() < 255 ==> !T::available(r@.len() as u8),
{
    let mut r: Vec<T> = Vec::new();
    let mut id: u8 = 0;
    while id < 255
        invariant
            r@.len() == id,
            forall|i: int| 0 <= i < id ==> #[trigger] T::available(i as u8),
        decreases 255 - id,
    {
        match T::now(id) {
            Some(t) => r.push(t),
            None => {
                return r;
            },
        }
        id = id + 1;
    }
    r
}

/// Samples every reader of a collection, in order: one raw elapsed value per
/// reader.
#[verifier::loop_isolation(false)]
pub fn elapsed<T: RaplReader>(readers: &Vec<T>) -> (r: Vec<u64>)
    ensures
        r@.len() == readers@.len(),
{
    let mut r: Vec<u64> = Vec::new();
    let n = readers.len();
    let mut i: usize = 0;
    while i < n
        invariant
            0 <= i <= n,
            r@.len() == i,
        decreases n - i,
    {
        r.push(readers[i].elapsed());
        i = i + 1;
    }
    r
}

/// The labels of every reader of a collection, in order.
#[verifier::loop_isolation(false)]
pub fn labels<T: RaplReader>(readers: &Vec<T>) -> (r: Vec<String>)
    ensures
        r@.len() == readers@.len(),
{
    let mut r: Vec<String> = Vec::new();
    let n = readers.len();
    let mut i: usize = 0;
    while i < n
        invariant
            0 <= i <= n,
            r@.len() == i,
        decreases n - i,
    {
        r.push(readers[i].label());
        i = i + 1;
    }
    r
}

} // verus!
