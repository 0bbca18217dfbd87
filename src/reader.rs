use vstd::prelude::*;
use crate::error::EdfError;
use crate::geometry::{blocks_for, in_recording, plan_length, plan_offset, plan_read, ReadPlan};
use crate::model::{ChannelHeader, EDFHeader};
use crate::sample::{channel_samples, decode_window, window_bytes};

verus! {

impl ChannelHeader {
    /// Whether this channel is well formed.
    pub fn is_valid(&self) -> (r: bool)
        ensures
            r == self.wf(),
    {
        self.digital_minimum != self.digital_maximum && -32768 <= self.digital_minimum
            && self.digital_minimum <= 32767 && -32768 <= self.digital_maximum
            && self.digital_maximum <= 32767 && self.number_of_samples_in_data_record < 100000000
            && -100000000 < self.physical_minimum.mantissa && self.physical_minimum.mantissa
            < 100000000 && -100000000 < self.physical_maximum.mantissa
            && self.physical_maximum.mantissa < 100000000 && self.physical_minimum.exponent <= 8
            && self.physical_maximum.exponent <= 8
    }
}

impl EDFHeader {
    /// Whether this header is complete and well formed.
    pub fn is_valid(&self) -> (r: bool)
        ensures
            r == self.wf(),
    {
        if !(self.number_of_signals < 10000 && self.block_duration > 0 && self.byte_size_header
            == 256 * (self.number_of_signals + 1) && self.channels.len() as u64
            == self.number_of_signals) {
            return false;
        }
        let mut c: usize = 0;
        while c < self.channels.len()
            invariant
                c <= self.channels@.len(),
                forall|k: int| 0 <= k < c ==> (#[trigger] self.channels@[k]).wf(),
            decreases self.channels@.len() - c,
        {
            if !self.channels[c].is_valid() {
                return false;
            }
            c += 1;
        }
        true
    }
}

/// A reader of one recording: its header, read once, and the source of
/// its bytes. The source is driven from outside the library; the reader
/// plans each windowed read and decodes what the source returned.
pub struct AsyncEDFReader<T> {
    pub edf_header: EDFHeader,
    pub file_reader: T,
}

impl<T> AsyncEDFReader<T> {
    pub open spec fn wf(&self) -> bool {
        self.edf_header.wf()
    }

    /// A reader over a complete header; fails with a format error where the
    /// header is not well formed.
    pub fn with_header(edf_header: EDFHeader, file_reader: T) -> (r: Result<Self, EdfError>)
        ensures
            r is Ok <==> edf_header.wf(),
            r is Ok ==> r->Ok_0.edf_header == edf_header && r->Ok_0.file_reader == file_reader,
            r is Err ==> r->Err_0 == EdfError::Format,
    {
        if edf_header.is_valid() {
            Ok(AsyncEDFReader { edf_header, file_reader })
        } else {
            Err(EdfError::Format)
        }
    }

    /// What to read for the window of `duration_ms` from `start_time_ms`.
    pub fn plan_window(&self, start_time_ms: u64, duration_ms: u64) -> (r: Result<ReadPlan, EdfError>)
        requires
            self.wf(),
        ensures
            r is Ok <==> (in_recording(start_time_ms as int, duration_ms as int, self.edf_header)
                && plan_offset(start_time_ms as int, self.edf_header) + plan_length(
                duration_ms as int,
                self.edf_header,
            ) <= u64::MAX),
            r is Err ==> r->Err_0 == EdfError::OutOfRange,
            r is Ok ==> r->Ok_0.offset == plan_offset(start_time_ms as int, self.edf_header),
            r is Ok ==> r->Ok_0.length == plan_length(duration_ms as int, self.edf_header),
            r is Ok ==> r->Ok_0.blocks == blocks_for(duration_ms as int, self.edf_header),
    {
        plan_read(start_time_ms, duration_ms, &self.edf_header)
    }

    /// The digital samples of each channel in the bytes read for `plan`.
    pub fn decode_window(&self, plan: &ReadPlan, data: &Vec<u8>) -> (r: Result<Vec<Vec<i16>>, EdfError>)
        ensures
            r is Ok <==> window_bytes(self.edf_header.channels@, plan.blocks as int) <= data@.len(),
            r is Ok ==> r->Ok_0.len() == self.edf_header.channels@.len(),
            r is Ok ==> forall|j: int|
                0 <= j < self.edf_header.channels@.len() ==> (#[trigger] r->Ok_0[j])@
                    == channel_samples(data@, self.edf_header.channels@, j, plan.blocks as nat),
            r is Err ==> r->Err_0 == (EdfError::Truncated {
                sample_index: (data@.len() / 2) as usize,
            }),
    {
        decode_window(data, &self.edf_header, plan.blocks)
    }
}

} // verus!
