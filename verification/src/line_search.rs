//! Searching a line program for the record that covers an address.
//!
//! Line records come in two addressing conventions. In the *sized*
//! convention every coverage-defining record carries an explicit byte
//! length, and records without a length are informational only. In the
//! *unsized* convention a record's range ends where the next record
//! begins, and the last record ends at the enclosing procedure's end.

use vstd::prelude::*;

verus! {

/// One decoded line record: a start address (already translated to a
/// relative virtual address), an optional byte length, and the source
/// attribution carried by the record.
#[derive(Clone, Copy, PartialEq, Eq, Debug)]
pub struct LineRecord {
    pub rva: u32,
    pub length: Option<u32>,
    pub file_index: u32,
    pub line_start: u32,
    pub column_start: Option<u32>,
}

/// Whether a record covers `address` under the sized convention:
/// it must carry a length `l`, and `address` must lie in the half-open
/// range `[rva, rva + l)`. A record without a length covers nothing.
pub open spec fn sized_covers(r: LineRecord, address: u32) -> bool {
    match r.length {
        Some(l) => r.rva <= address && (address as int) < r.rva + l,
        None => false,
    }
}

/// The first record of `records` that covers `address` under the sized
/// convention, if any.
pub open spec fn find_sized(records: Seq<LineRecord>, address: u32) -> Option<LineRecord>
    decreases records.len(),
{
    if records.len() == 0 {
        None
    } else if sized_covers(records[0], address) {
        Some(records[0])
    } else {
        find_sized(records.drop_first(), address)
    }
}

/// The end of record `i`'s range under the unsized convention: the next
/// record's start, or `outer_end` for the last record.
pub open spec fn implicit_end(records: Seq<LineRecord>, i: int, outer_end: u64) -> int {
    if i + 1 < records.len() {
        records[i + 1].rva as int
    } else {
        outer_end as int
    }
}

/// Whether record `i` covers `address` under the unsized convention.
pub open spec fn implicit_covers(records: Seq<LineRecord>, i: int, address: u32, outer_end: u64) -> bool {
    &&& 0 <= i < records.len()
    &&& records[i].rva <= address
    &&& (address as int) < implicit_end(records, i, outer_end)
}

/// The first record at index `k` or later that covers `address` under
/// the unsized convention, if any.
pub open spec fn find_implicit_from(
    records: Seq<LineRecord>,
    address: u32,
    outer_end: u64,
    k: int,
) -> Option<LineRecord>
    decreases records.len() - k,
{
    if k < 0 || k >= records.len() {
        None
    } else if implicit_covers(records, k, address, outer_end) {
        Some(records[k])
    } else {
        find_implicit_from(records, address, outer_end, k + 1)
    }
}

/// The first record of `records` that covers `address` under the
/// unsized convention, if any.
pub open spec fn find_implicit(records: Seq<LineRecord>, address: u32, outer_end: u64) -> Option<LineRecord> {
    find_implicit_from(records, address, outer_end, 0)
}

proof fn lemma_find_sized_skip_step(records: Seq<LineRecord>, address: u32, i: int)
    requires
        0 <= i < records.len(),
        !sized_covers(records[i], address),
    ensures
        find_sized(records.skip(i), address) == find_sized(records.skip(i + 1), address),
{
    assert(records.skip(i)[0] == records[i]);
    assert(records.skip(i).drop_first() =~= records.skip(i + 1));
}

/// Scan `records` in order and return the first one whose sized range
/// `[rva, rva + length)` contains `address`; records without a length
/// are skipped.
pub fn find_by_explicit_length(records: &Vec<LineRecord>, address: u32) -> (r: Option<LineRecord>)
    ensures
        r == find_sized(records@, address),
{
    let n = records.len();
    let mut i: usize = 0;
    proof {
        assert(records@.skip(0) =~= records@);
    }
    while i < n
        invariant
            n == records@.len(),
            0 <= i <= n,
            find_sized(records@, address) == find_sized(records@.skip(i as int), address),
        decreases n - i,
    {
        let rec = records[i];
        if let Some(len) = rec.length {
            let end: u64 = rec.rva as u64 + len as u64;
            if rec.rva <= address && (address as u64) < end {
                assert(records@.skip(i as int)[0] == records@[i as int]);
                return Some(rec);
            }
        }
        proof {
            lemma_find_sized_skip_step(records@, address, i as int);
        }
        i = i + 1;
    }
    assert(records@.skip(n as int) =~= Seq::<LineRecord>::empty());
    None
}

/// Scan `records` in order under the unsized convention, where record
/// `i` ends at record `i + 1`'s start and the last record ends at
/// `outer_end`; return the first record whose range contains `address`.
pub fn find_by_implicit_end(records: &Vec<LineRecord>, address: u32, outer_end: u64) -> (r: Option<LineRecord>)
    ensures
        r == find_implicit(records@, address, outer_end),
{
    let n = records.len();
    let mut i: usize = 0;
    while i < n
        invariant
            n == records@.len(),
            0 <= i <= n,
            find_implicit(records@, address, outer_end) == find_implicit_from(
                records@,
                address,
                outer_end,
                i as int,
            ),
        decreases n - i,
    {
        let rec = records[i];
        let end: u64 = if i + 1 < n {
            records[i + 1].rva as u64
        } else {
            outer_end
        };
        if rec.rva <= address && (address as u64) < end {
            assert(implicit_covers(records@, i as int, address, outer_end));
            return Some(rec);
        }
        assert(!implicit_covers(records@, i as int, address, outer_end));
        i = i + 1;
    }
    None
}

/// Yields its value exactly once: a one-element fallible sequence, used
/// to terminate a chain of record ranges with a final end address.
pub struct Once<T, E> {
    pub value: Option<Result<T, E>>,
}

impl<T, E> Once<T, E> {
    /// The first call hands out the stored value or error; every later
    /// call reports the sequence as finished.
    pub fn next(&mut self) -> (r: Result<Option<T>, E>)
        ensures
            final(self).value is None,
            match old(self).value {
                Some(v) => match v {
                    Ok(t) => r == Ok::<Option<T>, E>(Some(t)),
                    Err(e) => r == Err::<Option<T>, E>(e),
                },
                None => r == Ok::<Option<T>, E>(None),
            },
    {
        match self.value.take() {
            Some(Ok(value)) => Ok(Some(value)),
            Some(Err(err)) => Err(err),
            None => Ok(None),
        }
    }
}

/// A fallible sequence holding exactly the given value or error.
pub fn fallible_once<T, E>(value: Result<T, E>) -> (r: Once<T, E>)
    ensures
        r.value == Some(value),
{
    Once { value: Some(value) }
}

} // verus!
