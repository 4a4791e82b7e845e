//! One measurement, held as a whole number of millionths.

use crate::decimal::{
    format_micros, lemma_text_parses_back, micros_text, parse_decimal, parsed_micros,
};
use crate::text::{chars_of, string_of};
use vstd::prelude::*;

verus! {

/// One measurement: a number that is not negative, in millionths of its unit
/// (per cent of a processor, or kilobytes). What it measures is decided by the
/// metric it was taken for.
#[derive(Clone, Copy, Debug, PartialEq, Eq, Structural)]
pub struct Sample {
    /// The measurement in millionths.
    pub micros: u64,
}

/// What parsing `text` as a sample gives: the value of a decimal numeral that
/// fits, and nothing for any other text.
pub open spec fn parsed_sample(text: Seq<char>) -> Option<Sample> {
    match parsed_micros(text) {
        Some(micros) => Some(Sample { micros }),
        None => None,
    }
}

/// The sample that `text` stands for, with zero standing in for text that is
/// no sample.
pub open spec fn sample_or_zero(text: Seq<char>) -> Sample {
    match parsed_sample(text) {
        Some(sample) => sample,
        None => Sample { micros: 0 },
    }
}

impl Sample {
    /// The sample of nothing measured.
    pub fn zero() -> (sample: Sample)
        ensures
            sample == (Sample { micros: 0 }),
    {
        Sample { micros: 0 }
    }

    /// The sample of `micros` millionths.
    pub fn from_micros(micros: u64) -> (sample: Sample)
        ensures
            sample == (Sample { micros }),
    {
        Sample { micros }
    }

    /// Parses the characters of a decimal numeral.
    pub fn from_chars(text: &Vec<char>) -> (sample: Option<Sample>)
        ensures
            sample == parsed_sample(text@),
    {
        match parse_decimal(text) {
            Some(micros) => Some(Sample { micros }),
            None => None,
        }
    }

    /// Parses the characters of a decimal numeral; any other text gives zero.
    pub fn from_chars_or_zero(text: &Vec<char>) -> (sample: Sample)
        ensures
            sample == sample_or_zero(text@),
    {
        match Sample::from_chars(text) {
            Some(sample) => sample,
            None => Sample::zero(),
        }
    }

    /// Parses a decimal numeral such as `12.5`.
    pub fn parse(text: &str) -> (sample: Option<Sample>)
        ensures
            sample == parsed_sample(text@),
    {
        let chars = chars_of(text);
        Sample::from_chars(&chars)
    }

    /// Parses a decimal numeral; any other text gives zero.
    pub fn parse_or_zero(text: &str) -> (sample: Sample)
        ensures
            sample == sample_or_zero(text@),
    {
        let chars = chars_of(text);
        Sample::from_chars_or_zero(&chars)
    }

    /// The shortest decimal numeral of the sample. Parsing it gives the sample
    /// back.
    pub fn to_text(&self) -> (text: String)
        ensures
            text@ == micros_text(self.micros as nat),
            parsed_sample(text@) == Some(*self),
    {
        proof {
            lemma_text_parses_back(self.micros);
        }
        let chars = format_micros(self.micros);
        string_of(&chars)
    }
}

} // verus!
