//! A sample: one scattering curve with its stage counter and bookkeeping.

use super::metadata::{PeakLedger, SampleMetadata};
use vstd::prelude::*;

verus! {

/// Why a sample could not be built or read.
#[derive(Debug, Clone, Copy, PartialEq, Eq, Structural)]
pub enum SampleError {
    /// The three vectors of a sample differ in length.
    LengthMismatch { q_len: usize, intensity_len: usize, err_len: usize },
    /// A required handle was absent.
    NullPointer,
    /// An identifier was not valid text.
    InvalidUtf8,
    /// An index lies past the end of the data.
    IndexOutOfBounds { index: usize, len: usize },
}

/// The character of a decimal digit.
pub open spec fn digit_char(digit: nat) -> char {
    if digit == 0 {
        '0'
    } else if digit == 1 {
        '1'
    } else if digit == 2 {
        '2'
    } else if digit == 3 {
        '3'
    } else if digit == 4 {
        '4'
    } else if digit == 5 {
        '5'
    } else if digit == 6 {
        '6'
    } else if digit == 7 {
        '7'
    } else if digit == 8 {
        '8'
    } else {
        '9'
    }
}

/// `n` in decimal digits, without leading zeros.
pub open spec fn decimal(n: nat) -> Seq<char>
    decreases n,
{
    if n < 10 {
        seq![digit_char(n)]
    } else {
        decimal(n / 10).push(digit_char(n % 10))
    }
}

/// The words that describe `error`.
pub open spec fn message_of(error: SampleError) -> Seq<char> {
    match error {
        SampleError::LengthMismatch { q_len, intensity_len, err_len } =>
            "Array length mismatch: q="@ + decimal(q_len as nat) + ", intensity="@ + decimal(
                intensity_len as nat,
            ) + ", err="@ + decimal(err_len as nat),
        SampleError::NullPointer => "Null pointer passed"@,
        SampleError::InvalidUtf8 => "Invalid UTF-8 in string"@,
        SampleError::IndexOutOfBounds { index, len } => "Index "@ + decimal(index as nat)
            + " out of bounds for length "@ + decimal(len as nat),
    }
}

/// Has std's `format!` write the three lengths into the sentence on
/// mismatched lengths. `format!` prints an unsigned integer in decimal
/// digits without padding, which is what the contract spells out. Not
/// proved.
#[verifier::external_body]
fn length_mismatch_text(q_len: usize, intensity_len: usize, err_len: usize) -> (text: String)
    ensures
        text@ == "Array length mismatch: q="@ + decimal(q_len as nat) + ", intensity="@ + decimal(
            intensity_len as nat,
        ) + ", err="@ + decimal(err_len as nat),
{
    format!("Array length mismatch: q={}, intensity={}, err={}", q_len, intensity_len, err_len)
}

/// Has std's `format!` write index and length into the sentence on an index
/// out of bounds, each in decimal digits without padding. Not proved.
#[verifier::external_body]
fn out_of_bounds_text(index: usize, len: usize) -> (text: String)
    ensures
        text@ == "Index "@ + decimal(index as nat) + " out of bounds for length "@ + decimal(
            len as nat,
        ),
{
    format!("Index {} out of bounds for length {}", index, len)
}

impl SampleError {
    /// The error in words.
    pub fn message(&self) -> (text: String)
        ensures
            text@ == message_of(*self),
    {
        match self {
            SampleError::LengthMismatch { q_len, intensity_len, err_len } => length_mismatch_text(
                *q_len,
                *intensity_len,
                *err_len,
            ),
            SampleError::NullPointer => "Null pointer passed".to_owned(),
            SampleError::InvalidUtf8 => "Invalid UTF-8 in string".to_owned(),
            SampleError::IndexOutOfBounds { index, len } => out_of_bounds_text(*index, *len),
        }
    }
}

/// What a [`Sample`] holds.
pub struct SampleView {
    pub id: Seq<char>,
    pub q_values: Seq<i64>,
    pub intensity: Seq<i64>,
    pub intensity_err: Seq<i64>,
    pub stage_num: u32,
    pub metadata: PeakLedger,
}

impl SampleView {
    /// Abscissa, intensity and error share one index space.
    pub open spec fn aligned(self) -> bool {
        self.q_values.len() == self.intensity.len() == self.intensity_err.len()
    }

    /// The vectors are aligned, and the bookkeeping is disjoint and speaks of
    /// indices of the intensity vector only.
    pub open spec fn well_formed(self) -> bool {
        &&& self.aligned()
        &&& self.metadata.disjoint()
        &&& self.metadata.within(self.intensity.len())
    }
}

/// One scattering curve: abscissa `q_values`, `intensity` and its error
/// point by point, the number of stages the sample has passed, and its peak
/// bookkeeping.
#[derive(Debug)]
pub struct Sample {
    /// Identifier of the sample.
    pub id: String,
    /// Scattering vector values.
    pub q_values: Vec<i64>,
    /// Measured intensity at each abscissa.
    pub intensity: Vec<i64>,
    /// Uncertainty of each intensity.
    pub intensity_err: Vec<i64>,
    /// Number of stages that have run on the sample.
    pub stage_num: u32,
    /// Peak bookkeeping.
    pub metadata: SampleMetadata,
}

impl View for Sample {
    type V = SampleView;

    open spec fn view(&self) -> SampleView {
        SampleView {
            id: self.id@,
            q_values: self.q_values@,
            intensity: self.intensity@,
            intensity_err: self.intensity_err@,
            stage_num: self.stage_num,
            metadata: self.metadata@,
        }
    }
}

impl Clone for Sample {
    fn clone(&self) -> (copy: Self)
        ensures
            copy@ == self@,
    {
        Sample {
            id: self.id.clone(),
            q_values: self.q_values.clone(),
            intensity: self.intensity.clone(),
            intensity_err: self.intensity_err.clone(),
            stage_num: self.stage_num,
            metadata: self.metadata.clone(),
        }
    }
}

impl Sample {
    /// Builds a sample at stage 0 with empty bookkeeping. The three vectors
    /// must have one length; otherwise the lengths come back in the error.
    pub fn new(id: &str, q_values: Vec<i64>, intensity: Vec<i64>, intensity_err: Vec<i64>) -> (made:
        Result<Sample, SampleError>)
        ensures
            made is Ok <==> q_values@.len() == intensity@.len() == intensity_err@.len(),
            made matches Ok(sample) ==> sample@ == (SampleView {
                id: id@,
                q_values: q_values@,
                intensity: intensity@,
                intensity_err: intensity_err@,
                stage_num: 0,
                metadata: PeakLedger::empty(),
            }) && sample@.well_formed(),
            made matches Err(error) ==> error == (SampleError::LengthMismatch {
                q_len: q_values@.len() as usize,
                intensity_len: intensity@.len() as usize,
                err_len: intensity_err@.len() as usize,
            }),
    {
        let len: usize = q_values.len();
        if intensity.len() != len || intensity_err.len() != len {
            return Err(
                SampleError::LengthMismatch {
                    q_len: len,
                    intensity_len: intensity.len(),
                    err_len: intensity_err.len(),
                },
            );
        }
        Ok(
            Sample {
                id: id.to_owned(),
                q_values,
                intensity,
                intensity_err,
                stage_num: 0,
                metadata: SampleMetadata::new(),
            },
        )
    }

    /// Number of data points.
    pub fn len(&self) -> (len: usize)
        ensures
            len == self@.q_values.len(),
    {
        self.q_values.len()
    }

    /// Whether the sample has no data point.
    pub fn is_empty(&self) -> (empty: bool)
        ensures
            empty == (self@.q_values.len() == 0),
    {
        self.q_values.len() == 0
    }

    /// Intensity at `index`, or `None` past the end.
    pub fn get_intensity(&self, index: usize) -> (value: Option<i64>)
        ensures
            value == if index < self@.intensity.len() {
                Some(self@.intensity[index as int])
            } else {
                None
            },
    {
        if index < self.intensity.len() {
            Some(self.intensity[index])
        } else {
            None
        }
    }

    /// Writes `value` at `index` of the intensity and returns `true`; past
    /// the end it changes nothing and returns `false`.
    pub fn set_intensity(&mut self, index: usize, value: i64) -> (written: bool)
        ensures
            written == (index < old(self)@.intensity.len()),
            final(self)@ == if written {
                SampleView {
                    intensity: old(self)@.intensity.update(index as int, value),
                    ..old(self)@
                }
            } else {
                old(self)@
            },
    {
        if index < self.intensity.len() {
            self.intensity[index] = value;
            true
        } else {
            false
        }
    }

    /// Abscissa at `index`, or `None` past the end.
    pub fn get_q(&self, index: usize) -> (value: Option<i64>)
        ensures
            value == if index < self@.q_values.len() {
                Some(self@.q_values[index as int])
            } else {
                None
            },
    {
        if index < self.q_values.len() {
            Some(self.q_values[index])
        } else {
            None
        }
    }

    /// The intensity, open to change.
    pub fn intensity_mut(&mut self) -> (intensity: &mut Vec<i64>)
        ensures
            *intensity == old(self).intensity,
            *final(self) == (Sample { intensity: *final(intensity), ..*old(self) }),
    {
        &mut self.intensity
    }

    /// The intensity.
    pub fn intensity_ref(&self) -> (intensity: &[i64])
        ensures
            intensity@ == self@.intensity,
    {
        self.intensity.as_slice()
    }

    /// The abscissa.
    pub fn q_ref(&self) -> (q_values: &[i64])
        ensures
            q_values@ == self@.q_values,
    {
        self.q_values.as_slice()
    }

    /// The bookkeeping, open to change.
    pub fn metadata_mut(&mut self) -> (metadata: &mut SampleMetadata)
        ensures
            *metadata == old(self).metadata,
            *final(self) == (Sample { metadata: *final(metadata), ..*old(self) }),
    {
        &mut self.metadata
    }

    /// Counts one more stage.
    pub fn advance_stage(&mut self)
        requires
            old(self).stage_num < u32::MAX,
        ensures
            final(self)@ == (SampleView {
                stage_num: (old(self).stage_num + 1) as u32,
                ..old(self)@
            }),
    {
        self.stage_num += 1;
    }
}

} // verus!
