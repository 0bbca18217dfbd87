use vstd::prelude::*;
use crate::error::EdfError;
use crate::model::{pow10, ChannelHeader, Decimal, EDFHeader};
use crate::text::{
    decimal_of, lemma_pow10_positive, parse_decimal, parse_signed16, parse_unsigned, signed16_of,
    trim, trimmed_text, unsigned_of,
};

verus! {

/// The size of the general header, and of each channel's share of the
/// channel headers.
pub const EDF_HEADER_BYTE_SIZE: u64 = 256;

/// Where the header byte size starts in the general header.
pub const HEADER_SIZE_FIELD: usize = 184;

/// Where the field that follows the header byte size starts.
pub const HEADER_SIZE_END: usize = 192;

/// Where the number of data records starts in the general header.
pub const BLOCKS_FIELD: usize = 236;

/// Where the duration of a data record, in seconds, starts.
pub const DURATION_FIELD: usize = 244;

/// Where the number of signals starts; the field runs to the header's end.
pub const SIGNALS_FIELD: usize = 252;

// Channel header fields: the offset of each column, in multiples of the
// number of signals, and the width of one channel's entry in it.
pub const LABEL_AT: usize = 0;
pub const LABEL_W: usize = 16;
pub const TRANSDUCER_AT: usize = 16;
pub const TRANSDUCER_W: usize = 80;
pub const DIMENSION_AT: usize = 96;
pub const PHYS_MIN_AT: usize = 104;
pub const PHYS_MAX_AT: usize = 112;
pub const DIG_MIN_AT: usize = 120;
pub const DIG_MAX_AT: usize = 128;
pub const PREFILTER_AT: usize = 136;
pub const PREFILTER_W: usize = 80;
pub const SAMPLES_AT: usize = 216;
/// The width of every numeric column entry and of the physical dimension.
pub const NUM_W: usize = 8;

/// The duration of a data record in whole milliseconds, from its field in
/// seconds; `None` unless it is a positive number of milliseconds.
pub open spec fn duration_ms_of(field: Seq<u8>) -> Option<nat> {
    match decimal_of(field) {
        Some((m, e)) => if m > 0 && (m * 1000) % pow10(e) == 0 {
            Some((m * 1000 / pow10(e)) as nat)
        } else {
            None
        },
        None => None,
    }
}

/// Whether a general header parses: its length and its four numeric
/// fields.
pub open spec fn general_ok(raw: Seq<u8>) -> bool {
    &&& raw.len() == 256
    &&& unsigned_of(raw.subrange(184, 192)) is Some
    &&& unsigned_of(raw.subrange(236, 244)) is Some
    &&& duration_ms_of(raw.subrange(244, 252)) is Some
    &&& unsigned_of(raw.subrange(252, 256)) is Some
}

/// The entry of channel `c` in the column at `at` (times `n`) of width `w`
/// of a channel-header block for `n` channels.
pub open spec fn column(raw: Seq<u8>, n: int, c: int, at: usize, w: usize) -> Seq<u8> {
    raw.subrange(n * at + c * w, n * at + c * w + w)
}

/// Whether the entries of channel `c` parse, with distinct digital bounds.
pub open spec fn channel_ok(raw: Seq<u8>, n: int, c: int) -> bool {
    &&& decimal_of(column(raw, n, c, PHYS_MIN_AT, NUM_W)) is Some
    &&& decimal_of(column(raw, n, c, PHYS_MAX_AT, NUM_W)) is Some
    &&& signed16_of(column(raw, n, c, DIG_MIN_AT, NUM_W)) is Some
    &&& signed16_of(column(raw, n, c, DIG_MAX_AT, NUM_W)) is Some
    &&& signed16_of(column(raw, n, c, DIG_MIN_AT, NUM_W))->0 != signed16_of(
        column(raw, n, c, DIG_MAX_AT, NUM_W),
    )->0
    &&& unsigned_of(column(raw, n, c, SAMPLES_AT, NUM_W)) is Some
}

/// Whether `ch` holds what the entries of channel `c` say.
pub open spec fn channel_matches(ch: ChannelHeader, raw: Seq<u8>, n: int, c: int) -> bool {
    &&& ch.label@ == trim(column(raw, n, c, LABEL_AT, LABEL_W))
    &&& ch.transducer_type@ == trim(column(raw, n, c, TRANSDUCER_AT, TRANSDUCER_W))
    &&& ch.physical_dimension@ == trim(column(raw, n, c, DIMENSION_AT, NUM_W))
    &&& ch.physical_minimum@ == decimal_of(column(raw, n, c, PHYS_MIN_AT, NUM_W))->0
    &&& ch.physical_maximum@ == decimal_of(column(raw, n, c, PHYS_MAX_AT, NUM_W))->0
    &&& ch.digital_minimum == signed16_of(column(raw, n, c, DIG_MIN_AT, NUM_W))->0
    &&& ch.digital_maximum == signed16_of(column(raw, n, c, DIG_MAX_AT, NUM_W))->0
    &&& ch.prefiltering@ == trim(column(raw, n, c, PREFILTER_AT, PREFILTER_W))
    &&& ch.number_of_samples_in_data_record == unsigned_of(column(raw, n, c, SAMPLES_AT, NUM_W))->0
}

impl ChannelHeader {
    /// Calibration bounds that give a finite scale, and sizes that keep the
    /// geometry's arithmetic in range.
    pub open spec fn wf(&self) -> bool {
        &&& self.digital_minimum != self.digital_maximum
        &&& -32768 <= self.digital_minimum <= 32767
        &&& -32768 <= self.digital_maximum <= 32767
        &&& self.number_of_samples_in_data_record < 100000000
        &&& -100000000 < self.physical_minimum.mantissa < 100000000
        &&& -100000000 < self.physical_maximum.mantissa < 100000000
        &&& self.physical_minimum.exponent <= 8
        &&& self.physical_maximum.exponent <= 8
    }
}

impl EDFHeader {
    /// What the general header establishes.
    pub open spec fn general_wf(&self) -> bool {
        &&& self.number_of_signals < 10000
        &&& self.block_duration > 0
        &&& self.byte_size_header == 256 * (self.number_of_signals + 1)
    }

    /// A complete header: the general part, and one well-formed channel
    /// per signal.
    pub open spec fn wf(&self) -> bool {
        &&& self.general_wf()
        &&& self.channels@.len() == self.number_of_signals
        &&& forall|c: int| 0 <= c < self.channels@.len() ==> (#[trigger] self.channels@[c]).wf()
    }

    /// Parses the 256-byte general header into a header without channels.
    /// Fails with a format error unless `raw` is 256 bytes long and the
    /// header byte size, the number of data records, the record duration
    /// (in seconds, a positive whole number of milliseconds) and the number
    /// of signals parse. The header's size is kept as `256 × (signals + 1)`.
    pub fn build_general_header(raw: &Vec<u8>) -> (r: Result<EDFHeader, EdfError>)
        ensures
            r is Ok <==> general_ok(raw@),
            r is Err ==> r->Err_0 == EdfError::Format,
            r is Ok ==> {
                let h = r->Ok_0;
                &&& h.general_wf()
                &&& h.number_of_blocks == unsigned_of(raw@.subrange(236, 244))->0
                &&& h.block_duration == duration_ms_of(raw@.subrange(244, 252))->0
                &&& h.number_of_signals == unsigned_of(raw@.subrange(252, 256))->0
                &&& h.channels@.len() == 0
            },
    {
        if raw.len() != 256 {
            return Err(EdfError::Format);
        }
        if parse_unsigned(raw, HEADER_SIZE_FIELD, HEADER_SIZE_END).is_none() {
            return Err(EdfError::Format);
        }
        let blocks = match parse_unsigned(raw, BLOCKS_FIELD, DURATION_FIELD) {
            Some(v) => v,
            None => return Err(EdfError::Format),
        };
        let duration = match parse_decimal(raw, DURATION_FIELD, SIGNALS_FIELD) {
            Some(d) => d,
            None => return Err(EdfError::Format),
        };
        let signals = match parse_unsigned(raw, SIGNALS_FIELD, 256) {
            Some(v) => v,
            None => return Err(EdfError::Format),
        };
        let block_duration = match duration_in_ms(duration) {
            Some(ms) => ms,
            None => return Err(EdfError::Format),
        };
        proof {
            assert(signals < 10000) by {
                crate::text::lemma_pow10_eight();
                lemma_four_digits(raw@.subrange(252, 256));
            }
        }
        Ok(
            EDFHeader {
                byte_size_header: EDF_HEADER_BYTE_SIZE * (signals + 1),
                number_of_blocks: blocks,
                block_duration,
                number_of_signals: signals,
                channels: Vec::new(),
            },
        )
    }

    /// Parses the channel-header block, `256 × number_of_signals` bytes laid
    /// out column by column, into a copy of this header with its channels.
    /// Fails with a format error where the length is not exactly that, or
    /// where a channel's numeric entries do not parse or its digital bounds
    /// are equal.
    pub fn build_channel_headers(&self, raw: &Vec<u8>) -> (r: Result<EDFHeader, EdfError>)
        ensures
            r is Ok <==> (raw@.len() == 256 * self.number_of_signals && forall|c: int|
                0 <= c < self.number_of_signals ==> channel_ok(
                    raw@,
                    self.number_of_signals as int,
                    c,
                )),
            r is Err ==> r->Err_0 == EdfError::Format,
            r is Ok ==> {
                let h = r->Ok_0;
                &&& h.byte_size_header == self.byte_size_header
                &&& h.number_of_blocks == self.number_of_blocks
                &&& h.block_duration == self.block_duration
                &&& h.number_of_signals == self.number_of_signals
                &&& h.channels@.len() == self.number_of_signals
                &&& forall|c: int|
                    0 <= c < h.channels@.len() ==> channel_matches(
                        #[trigger] h.channels@[c],
                        raw@,
                        self.number_of_signals as int,
                        c,
                    )
                &&& self.general_wf() ==> h.wf()
            },
    {
        let len: usize = raw.len();
        if self.number_of_signals as u128 * 256 != len as u128 {
            return Err(EdfError::Format);
        }
        let n: usize = (len / 256) as usize;
        let mut channels: Vec<ChannelHeader> = Vec::new();
        let mut c: usize = 0;
        while c < n
            invariant
                c <= n,
                n == self.number_of_signals,
                raw@.len() == 256 * n,
                channels@.len() == c,
                forall|k: int| 0 <= k < c ==> channel_ok(raw@, n as int, k),
                forall|k: int|
                    0 <= k < c ==> channel_matches(#[trigger] channels@[k], raw@, n as int, k),
                forall|k: int| 0 <= k < c ==> (#[trigger] channels@[k]).wf(),
            decreases n - c,
        {
            match parse_channel(raw, n, c) {
                Some(ch) => channels.push(ch),
                None => return Err(EdfError::Format),
            }
            c += 1;
        }
        Ok(
            EDFHeader {
                byte_size_header: self.byte_size_header,
                number_of_blocks: self.number_of_blocks,
                block_duration: self.block_duration,
                number_of_signals: self.number_of_signals,
                channels,
            },
        )
    }
}

proof fn lemma_four_digits(t: Seq<u8>)
    requires
        t.len() == 4,
    ensures
        unsigned_of(t) is Some ==> unsigned_of(t)->0 < 10000,
{
    if unsigned_of(t) is Some {
        lemma_digits_bound(trim(t));
        lemma_trim_len(t);
        crate::text::lemma_pow10_monotone(trim(t).len(), 4);
        reveal_with_fuel(pow10, 5);
    }
}

proof fn lemma_trim_len(t: Seq<u8>)
    ensures
        trim(t).len() <= t.len(),
{
    lemma_trim_start_len(t);
    lemma_trim_end_len(crate::text::trim_start(t));
}

proof fn lemma_trim_start_len(t: Seq<u8>)
    ensures
        crate::text::trim_start(t).len() <= t.len(),
    decreases t.len(),
{
    if t.len() > 0 && t[0] == crate::text::SPACE {
        lemma_trim_start_len(t.drop_first());
    }
}

proof fn lemma_trim_end_len(t: Seq<u8>)
    ensures
        crate::text::trim_end(t).len() <= t.len(),
    decreases t.len(),
{
    if t.len() > 0 && t.last() == crate::text::SPACE {
        lemma_trim_end_len(t.drop_last());
    }
}

proof fn lemma_digits_bound(t: Seq<u8>)
    requires
        crate::text::all_digits(t),
    ensures
        crate::text::digits_value(t) < pow10(t.len()),
    decreases t.len(),
{
    if t.len() > 0 {
        let p = t.drop_last();
        assert(crate::text::all_digits(p)) by {
            assert forall|i: int| 0 <= i < p.len() implies crate::text::is_digit(#[trigger] p[i]) by {
                assert(p[i] == t[i]);
            }
        }
        lemma_digits_bound(p);
        let v = crate::text::digits_value(p);
        let d = (t.last() - 48) as nat;
        assert(crate::text::is_digit(t[t.len() - 1]));
        assert(v * 10 + d < pow10(t.len())) by (nonlinear_arith)
            requires
                v < pow10(p.len()),
                pow10(t.len()) == 10 * pow10(p.len()),
                d < 10,
        ;
    }
}

/// Ten to the power `e`.
pub(crate) fn pow10_u64(e: u32) -> (r: u64)
    requires
        e <= 8,
    ensures
        r == pow10(e as nat),
        r >= 1,
{
    let mut r: u64 = 1;
    let mut k: u32 = 0;
    while k < e
        invariant
            k <= e <= 8,
            r == pow10(k as nat),
        decreases e - k,
    {
        proof {
            crate::text::lemma_pow10_monotone((k + 1) as nat, 8);
            crate::text::lemma_pow10_eight();
        }
        r = r * 10;
        k += 1;
    }
    proof {
        lemma_pow10_positive(e as nat);
    }
    r
}

/// A record duration in seconds as whole milliseconds, or `None` where it
/// is not positive or not a whole number of milliseconds.
fn duration_in_ms(d: Decimal) -> (r: Option<u64>)
    requires
        -100000000 < d.mantissa < 100000000,
        d.exponent <= 8,
    ensures
        r is Some <==> (d.mantissa > 0 && (d.mantissa * 1000) % pow10(d.exponent as nat) == 0),
        r is Some ==> r->0 == d.mantissa * 1000 / pow10(d.exponent as nat),
        r is Some ==> r->0 > 0,
{
    if d.mantissa <= 0 {
        return None;
    }
    let p = pow10_u64(d.exponent);
    let scaled: u64 = d.mantissa as u64 * 1000;
    if scaled % p != 0 {
        return None;
    }
    proof {
        let s = scaled as int;
        let q = s / (p as int);
        vstd::arithmetic::div_mod::lemma_fundamental_div_mod(s, p as int);
        assert(q > 0) by (nonlinear_arith)
            requires
                s == (p as int) * q,
                s > 0,
                p >= 1,
        ;
    }
    Some(scaled / p)
}

proof fn lemma_column_in_range(n: int, c: int, at: int, w: int)
    requires
        0 <= c < n,
        0 <= at,
        0 < w,
        at + w <= 256,
    ensures
        0 <= n * at + c * w,
        n * at + c * w + w <= 256 * n,
{
    assert(0 <= n * at + c * w) by (nonlinear_arith)
        requires
            0 <= c < n,
            0 <= at,
            0 < w,
    ;
    assert(n * at + c * w + w <= 256 * n) by (nonlinear_arith)
        requires
            0 <= c < n,
            0 <= at,
            0 < w,
            at + w <= 256,
    ;
}

/// The start and end of the entry of channel `c` in a column.
fn column_bounds(n: usize, c: usize, at: usize, w: usize) -> (r: (usize, usize))
    requires
        c < n,
        at + w <= 256,
        0 < w,
        256 * n <= usize::MAX,
    ensures
        r.0 == n * at + c * w,
        r.1 == r.0 + w,
        r.1 <= 256 * n,
{
    proof {
        lemma_column_in_range(n as int, c as int, at as int, w as int);
        assert(n * at <= 256 * n) by (nonlinear_arith)
            requires
                at <= 256,
        ;
        assert(c * w <= 256 * n) by (nonlinear_arith)
            requires
                c < n,
                w <= 256,
        ;
    }
    let start: usize = n * at + c * w;
    (start, start + w)
}

/// Parses the entries of channel `c` of a channel-header block for `n`
/// channels.
fn parse_channel(raw: &Vec<u8>, n: usize, c: usize) -> (r: Option<ChannelHeader>)
    requires
        c < n,
        raw@.len() == 256 * n,
    ensures
        r is Some <==> channel_ok(raw@, n as int, c as int),
        r is Some ==> channel_matches(r->0, raw@, n as int, c as int),
        r is Some ==> r->0.wf(),
{
    // A vector's length fits in usize, and so does every offset below it.
    let _len: usize = raw.len();
    let (s, e) = column_bounds(n, c, LABEL_AT, LABEL_W);
    let label = trimmed_text(raw, s, e);
    let (s, e) = column_bounds(n, c, TRANSDUCER_AT, TRANSDUCER_W);
    let transducer_type = trimmed_text(raw, s, e);
    let (s, e) = column_bounds(n, c, DIMENSION_AT, NUM_W);
    let physical_dimension = trimmed_text(raw, s, e);
    let (s, e) = column_bounds(n, c, PHYS_MIN_AT, NUM_W);
    let physical_minimum = match parse_decimal(raw, s, e) {
        Some(d) => d,
        None => return None,
    };
    let (s, e) = column_bounds(n, c, PHYS_MAX_AT, NUM_W);
    let physical_maximum = match parse_decimal(raw, s, e) {
        Some(d) => d,
        None => return None,
    };
    let (s, e) = column_bounds(n, c, DIG_MIN_AT, NUM_W);
    let digital_minimum = match parse_signed16(raw, s, e) {
        Some(v) => v,
        None => return None,
    };
    let (s, e) = column_bounds(n, c, DIG_MAX_AT, NUM_W);
    let digital_maximum = match parse_signed16(raw, s, e) {
        Some(v) => v,
        None => return None,
    };
    if digital_minimum == digital_maximum {
        return None;
    }
    let (s, e) = column_bounds(n, c, PREFILTER_AT, PREFILTER_W);
    let prefiltering = trimmed_text(raw, s, e);
    let (s, e) = column_bounds(n, c, SAMPLES_AT, NUM_W);
    let number_of_samples_in_data_record = match parse_unsigned(raw, s, e) {
        Some(v) => v,
        None => return None,
    };
    Some(
        ChannelHeader {
            label,
            transducer_type,
            physical_dimension,
            physical_minimum,
            physical_maximum,
            digital_minimum,
            digital_maximum,
            prefiltering,
            number_of_samples_in_data_record,
        },
    )
}

} // verus!
