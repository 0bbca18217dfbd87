use vstd::prelude::*;

verus! {

/// Ten to the power `e`.
pub open spec fn pow10(e: nat) -> int
    decreases e,
{
    if e == 0 {
        1
    } else {
        10 * pow10((e - 1) as nat)
    }
}

/// A decimal number as written in a header field: `mantissa / 10^exponent`.
#[derive(Clone, Copy, Debug, PartialEq, Eq, Structural)]
pub struct Decimal {
    pub mantissa: i64,
    pub exponent: u32,
}

impl Decimal {
    /// The number as mantissa and exponent.
    pub open spec fn view(self) -> (int, nat) {
        (self.mantissa as int, self.exponent as nat)
    }
}

/// One channel's calibration and layout, as read from the channel headers.
#[derive(Clone, Debug)]
pub struct ChannelHeader {
    pub label: Vec<u8>,
    pub transducer_type: Vec<u8>,
    pub physical_dimension: Vec<u8>,
    pub physical_minimum: Decimal,
    pub physical_maximum: Decimal,
    pub digital_minimum: i64,
    pub digital_maximum: i64,
    pub prefiltering: Vec<u8>,
    pub number_of_samples_in_data_record: u64,
}

/// The header of a recording. `block_duration` is in milliseconds.
#[derive(Clone, Debug)]
pub struct EDFHeader {
    pub byte_size_header: u64,
    pub number_of_blocks: u64,
    pub block_duration: u64,
    pub number_of_signals: u64,
    pub channels: Vec<ChannelHeader>,
}

/// The number of samples that the channels before channel `j` hold in one
/// data record.
pub open spec fn samples_before(chs: Seq<ChannelHeader>, j: int) -> int
    decreases j,
{
    if j <= 0 || j > chs.len() {
        0
    } else {
        samples_before(chs, j - 1) + chs[j - 1].number_of_samples_in_data_record
    }
}

/// The number of samples in one data record, over all channels.
pub open spec fn record_samples(chs: Seq<ChannelHeader>) -> int {
    samples_before(chs, chs.len() as int)
}

} // verus!
