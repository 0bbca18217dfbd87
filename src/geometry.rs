use vstd::prelude::*;
use crate::error::EdfError;
use crate::model::{record_samples, samples_before, EDFHeader};

verus! {

/// The byte size of one data record: two bytes per sample.
pub open spec fn record_bytes(h: EDFHeader) -> int {
    2 * record_samples(h.channels@)
}

/// Whether a window lies within the recording.
pub open spec fn in_recording(start_time: int, duration: int, h: EDFHeader) -> bool {
    start_time + duration <= h.block_duration * h.number_of_blocks
}

/// The index of the data record in which a time falls.
pub open spec fn first_block(start_time: int, h: EDFHeader) -> int {
    start_time / (h.block_duration as int)
}

/// How many whole data records cover a duration: its quotient by the
/// record duration, rounded up.
pub open spec fn blocks_for(duration: int, h: EDFHeader) -> int {
    (duration + h.block_duration - 1) / (h.block_duration as int)
}

/// Where the bytes of a window start in the file.
pub open spec fn plan_offset(start_time: int, h: EDFHeader) -> int {
    h.byte_size_header + first_block(start_time, h) * record_bytes(h)
}

/// How many bytes a window's data records take.
pub open spec fn plan_length(duration: int, h: EDFHeader) -> int {
    blocks_for(duration, h) * record_bytes(h)
}

/// What to read for a window: `length` bytes at `offset`, holding `blocks`
/// whole data records.
#[derive(Clone, Copy, Debug, PartialEq, Eq, Structural)]
pub struct ReadPlan {
    pub offset: u64,
    pub length: u64,
    pub blocks: u64,
}

impl EDFHeader {
    /// The byte size of one data record.
    pub fn get_size_of_data_block(&self) -> (r: u64)
        requires
            self.wf(),
        ensures
            r == record_bytes(*self),
            r <= 2000000000000,
    {
        let ghost chs = self.channels@;
        let n: usize = self.channels.len();
        let mut total: u64 = 0;
        let mut c: usize = 0;
        while c < n
            invariant
                c <= n,
                n == chs.len(),
                chs == self.channels@,
                self.wf(),
                total == samples_before(chs, c as int),
                total <= c * 100000000,
            decreases n - c,
        {
            assert(chs[c as int].wf());
            total = total + self.channels[c].number_of_samples_in_data_record;
            c += 1;
        }
        2 * total
    }

    /// Where the channel headers lie in the file, once the general header
    /// has given the number of signals: `(offset, length)`.
    pub fn channel_headers_range(&self) -> (r: (u64, u64))
        requires
            self.general_wf(),
        ensures
            r.0 == 256,
            r.1 == 256 * self.number_of_signals,
    {
        (256, 256 * self.number_of_signals)
    }
}

/// Fails with `OutOfRange` exactly when the window ends after the last data
/// record; a window that ends at the end of the recording is accepted.
pub fn check_bounds(start_time: u64, duration: u64, edf_header: &EDFHeader) -> (r: Result<(), EdfError>)
    ensures
        r is Ok <==> in_recording(start_time as int, duration as int, *edf_header),
        r is Err ==> r->Err_0 == EdfError::OutOfRange,
{
    let end: u128 = start_time as u128 + duration as u128;
    proof {
        let bd = edf_header.block_duration as int;
        let nb = edf_header.number_of_blocks as int;
        assert(bd * nb <= 0xffff_ffff_ffff_ffff * 0xffff_ffff_ffff_ffff) by (nonlinear_arith)
            requires
                0 <= bd <= 0xffff_ffff_ffff_ffff,
                0 <= nb <= 0xffff_ffff_ffff_ffff,
        ;
    }
    let total: u128 = edf_header.block_duration as u128 * edf_header.number_of_blocks as u128;
    if end > total {
        Err(EdfError::OutOfRange)
    } else {
        Ok(())
    }
}

/// Plans the read of a window: the data record in which `start_time`
/// falls, and enough whole records after it to cover `duration`. Fails
/// with `OutOfRange` where the window leaves the recording, or where the
/// bytes to read end beyond what a `u64` offset can address.
pub fn plan_read(start_time: u64, duration: u64, edf_header: &EDFHeader) -> (r: Result<ReadPlan, EdfError>)
    requires
        edf_header.wf(),
    ensures
        r is Ok <==> (in_recording(start_time as int, duration as int, *edf_header) && plan_offset(
            start_time as int,
            *edf_header,
        ) + plan_length(duration as int, *edf_header) <= u64::MAX),
        r is Err ==> r->Err_0 == EdfError::OutOfRange,
        r is Ok ==> r->Ok_0.offset == plan_offset(start_time as int, *edf_header),
        r is Ok ==> r->Ok_0.length == plan_length(duration as int, *edf_header),
        r is Ok ==> r->Ok_0.blocks == blocks_for(duration as int, *edf_header),
{
    if check_bounds(start_time, duration, edf_header).is_err() {
        return Err(EdfError::OutOfRange);
    }
    let bd: u128 = edf_header.block_duration as u128;
    let size: u128 = edf_header.get_size_of_data_block() as u128;
    let first: u128 = start_time as u128 / bd;
    let blocks: u128 = (duration as u128 + bd - 1) / bd;
    proof {
        lemma_quotient_bound(start_time as int, bd as int);
        lemma_ceil_bound(duration as int, bd as int);
        assert(first * size <= 0x1_0000_0000_0000_0000 * 2000000000000) by (nonlinear_arith)
            requires
                first <= 0xffff_ffff_ffff_ffff,
                size <= 2000000000000,
        ;
        assert(blocks * size <= 0x1_0000_0000_0000_0000 * 2000000000000) by (nonlinear_arith)
            requires
                blocks <= 0xffff_ffff_ffff_ffff,
                size <= 2000000000000,
        ;
    }
    let offset: u128 = edf_header.byte_size_header as u128 + first * size;
    let length: u128 = blocks * size;
    if offset + length > u64::MAX as u128 {
        return Err(EdfError::OutOfRange);
    }
    Ok(ReadPlan { offset: offset as u64, length: length as u64, blocks: blocks as u64 })
}

proof fn lemma_quotient_bound(x: int, d: int)
    requires
        x >= 0,
        d >= 1,
    ensures
        x / d <= x,
{
    vstd::arithmetic::div_mod::lemma_fundamental_div_mod(x, d);
    vstd::arithmetic::div_mod::lemma_div_pos_is_pos(x, d);
    assert(x / d <= x) by (nonlinear_arith)
        requires
            x == d * (x / d) + x % d,
            x % d >= 0,
            x / d >= 0,
            d >= 1,
    ;
}

proof fn lemma_ceil_bound(x: int, d: int)
    requires
        x >= 0,
        d >= 1,
    ensures
        (x + d - 1) / d <= x,
{
    let q = (x + d - 1) / d;
    vstd::arithmetic::div_mod::lemma_fundamental_div_mod(x + d - 1, d);
    vstd::arithmetic::div_mod::lemma_div_pos_is_pos(x + d - 1, d);
    assert(q <= x) by (nonlinear_arith)
        requires
            x + d - 1 == d * q + (x + d - 1) % d,
            (x + d - 1) % d >= 0,
            q >= 0,
            d >= 1,
            x >= 0,
    ;
}

/// A window that starts at zero and lasts one record duration reads
/// exactly one data record, at the end of the header.
pub proof fn law_first_record_window(h: EDFHeader)
    requires
        h.wf(),
    ensures
        first_block(0, h) == 0,
        blocks_for(h.block_duration as int, h) == 1,
        plan_offset(0, h) == h.byte_size_header,
        plan_length(h.block_duration as int, h) == record_bytes(h),
{
    let bd = h.block_duration as int;
    assert((bd + bd - 1) / bd == 1) by (nonlinear_arith)
        requires
            bd >= 1,
    ;
}

/// A window that starts exactly on the boundary of data record `k` starts
/// its read at record `k`, not at the record before it.
pub proof fn law_boundary_start(h: EDFHeader, k: nat)
    requires
        h.wf(),
    ensures
        first_block(k * h.block_duration, h) == k,
        plan_offset(k * h.block_duration, h) == h.byte_size_header + k * record_bytes(h),
{
    let bd = h.block_duration as int;
    assert((k * bd) / bd == k) by (nonlinear_arith)
        requires
            bd >= 1,
    ;
}

} // verus!
