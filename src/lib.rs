//! Reading of European Data Format (EDF) recordings: the header codec, the
//! geometry of windowed reads and the decoding of interleaved 16-bit samples.
use vstd::prelude::*;

pub mod calibration;
pub mod error;
pub mod geometry;
pub mod header;
pub mod model;
pub mod reader;
pub mod sample;
pub mod text;

pub use error::{EdfError, ErrorKind};
pub use geometry::{check_bounds, plan_read, ReadPlan};
pub use header::EDF_HEADER_BYTE_SIZE;
pub use model::{ChannelHeader, Decimal, EDFHeader};
pub use reader::AsyncEDFReader;
pub use sample::{decode_window, get_sample};

verus! {

} // verus!
