//! From the inspection tool's output to samples.

use crate::metric::MetricKind;
use crate::sample::{sample_or_zero, Sample};
use crate::text::{
    chars_of, contains_text, field, fields_of, first_line, has_text, lines, lines_of, piece,
    span_from, views, CharClass,
};
use vstd::prelude::*;

verus! {

/// The zero-based index of the field that holds the processor use in a line
/// of the process table.
pub const CPU_FIELD: usize = 8;

/// The zero-based index of the field that holds the size in a summary line of
/// the memory report.
pub const MEMORY_FIELD: usize = 2;

/// The text that marks the summary line of the memory report.
pub open spec fn memory_marker() -> Seq<char> {
    "TOTAL PSS:"@
}

/// `text` without one `%` at its end, if it ends in one.
pub open spec fn strip_percent(text: Seq<char>) -> Seq<char> {
    if text.len() > 0 && text.last() == '%' {
        text.drop_last()
    } else {
        text
    }
}

/// The sample of one line of the process table: its ninth field without a
/// `%` at its end, read as a decimal numeral. Zero where the line has no
/// ninth field or the field is no numeral.
pub open spec fn cpu_line_sample(line: Seq<char>) -> Sample {
    match field(line, CPU_FIELD as nat) {
        Some(text) => sample_or_zero(strip_percent(text)),
        None => Sample { micros: 0 },
    }
}

/// The sample of one capture of the process table: that of its first line.
/// An empty capture gives none.
pub open spec fn cpu_sample(output: Seq<char>) -> Option<Sample> {
    if output.len() == 0 {
        None
    } else {
        Some(cpu_line_sample(first_line(output)))
    }
}

/// Whether `line` is a summary line of the memory report.
pub open spec fn is_memory_line(line: Seq<char>) -> bool {
    contains_text(line, memory_marker())
}

/// The sample of one summary line of the memory report: its third field, read
/// as a decimal numeral. Zero where the line has no third field or the field
/// is no numeral.
pub open spec fn memory_line_sample(line: Seq<char>) -> Sample {
    match field(line, MEMORY_FIELD as nat) {
        Some(text) => sample_or_zero(text),
        None => Sample { micros: 0 },
    }
}

/// The summary lines among `lines`, in order.
pub open spec fn summary_lines(lines: Seq<Seq<char>>) -> Seq<Seq<char>> {
    lines.filter(|line: Seq<char>| is_memory_line(line))
}

/// The samples of the summary lines among `lines`: one for each, in order.
pub open spec fn memory_samples_of_lines(lines: Seq<Seq<char>>) -> Seq<Sample> {
    summary_lines(lines).map_values(|line: Seq<char>| memory_line_sample(line))
}

/// The samples of one capture of the memory report: one for each summary
/// line, in order.
pub open spec fn memory_samples(output: Seq<char>) -> Seq<Sample> {
    memory_samples_of_lines(lines(output))
}

/// The samples that one capture of the tool's output gives for `kind`.
pub open spec fn samples_of(kind: MetricKind, output: Seq<char>) -> Seq<Sample> {
    match kind {
        MetricKind::Cpu => match cpu_sample(output) {
            Some(sample) => seq![sample],
            None => Seq::empty(),
        },
        MetricKind::Memory => memory_samples(output),
    }
}

/// A capture of the memory report gives as many samples as it has summary
/// lines, each the sample of its line; without a summary line it gives none.
pub proof fn lemma_memory_samples_by_line(output: Seq<char>)
    ensures
        memory_samples(output).len() == summary_lines(lines(output)).len(),
        forall|i: int|
            0 <= i < memory_samples(output).len() ==> #[trigger] memory_samples(output)[i]
                == memory_line_sample(summary_lines(lines(output))[i]),
        forall|i: int|
            0 <= i < summary_lines(lines(output)).len() ==> is_memory_line(
                #[trigger] summary_lines(lines(output))[i],
            ),
        (forall|i: int| 0 <= i < lines(output).len() ==> !is_memory_line(#[trigger] lines(output)[i]))
            ==> memory_samples(output).len() == 0,
{
    let wanted = |line: Seq<char>| is_memory_line(line);
    let all = lines(output);
    assert forall|i: int| 0 <= i < summary_lines(all).len() implies is_memory_line(
        #[trigger] summary_lines(all)[i],
    ) by {
        all.lemma_filter_pred(wanted, i);
    }
    if forall|i: int| 0 <= i < all.len() ==> !is_memory_line(#[trigger] all[i]) {
        assert(all.all(|line: Seq<char>| !wanted(line)));
        all.lemma_all_neg_filter_empty(wanted);
    }
}

/// No lines give no samples.
pub proof fn lemma_memory_samples_none()
    ensures
        memory_samples_of_lines(Seq::empty()) == Seq::<Sample>::empty(),
{
    reveal(Seq::filter);
}

/// One more line adds its sample behind the others if it is a summary line,
/// and nothing if it is not.
pub proof fn lemma_memory_samples_push(lines: Seq<Seq<char>>, line: Seq<char>)
    ensures
        memory_samples_of_lines(lines.push(line)) == if is_memory_line(line) {
            memory_samples_of_lines(lines).push(memory_line_sample(line))
        } else {
            memory_samples_of_lines(lines)
        },
{
    let wanted = |line: Seq<char>| is_memory_line(line);
    lines.lemma_filter_push(line, wanted);
}

/// The sample that the field of `line` at `index` stands for, a `%` at its
/// end set aside where `percent` says so.
fn field_sample(line: &Vec<char>, index: usize, percent: bool) -> (sample: Sample)
    ensures
        sample == match field(line@, index as nat) {
            Some(text) => sample_or_zero(
                if percent {
                    strip_percent(text)
                } else {
                    text
                },
            ),
            None => Sample { micros: 0 },
        },
{
    let parts = fields_of(line);
    if index >= parts.len() {
        return Sample::zero();
    }
    let text = &parts[index];
    assert(field(line@, index as nat) == Some(text@)) by {
        assert(views(parts@)[index as int] == text@);
    }
    let end: usize = if percent && text.len() > 0 && text[text.len() - 1] == '%' {
        text.len() - 1
    } else {
        text.len()
    };
    let number = piece(text, 0, end);
    assert(number@ == if percent {
        strip_percent(text@)
    } else {
        text@
    });
    Sample::from_chars_or_zero(&number)
}

/// The sample of one line of the process table, given as characters.
pub fn cpu_line_sample_of(line: &Vec<char>) -> (sample: Sample)
    ensures
        sample == cpu_line_sample(line@),
{
    field_sample(line, CPU_FIELD, true)
}

/// The sample of one summary line of the memory report, given as characters.
pub fn memory_line_sample_of(line: &Vec<char>) -> (sample: Sample)
    ensures
        sample == memory_line_sample(line@),
{
    field_sample(line, MEMORY_FIELD, false)
}

/// The sample of one line of the process table: its ninth field without a
/// `%` at its end, or zero where that is missing or no numeral.
pub fn parse_cpu_line(line: &str) -> (sample: Sample)
    ensures
        sample == cpu_line_sample(line@),
{
    let chars = chars_of(line);
    cpu_line_sample_of(&chars)
}

/// The sample of one capture of the process table: that of its first line,
/// and none for an empty capture.
pub fn parse_cpu_output(output: &str) -> (sample: Option<Sample>)
    ensures
        sample == cpu_sample(output@),
{
    let chars = chars_of(output);
    if chars.len() == 0 {
        return None;
    }
    let end = span_from(&chars, 0, CharClass::LineBody);
    let line = piece(&chars, 0, end);
    proof {
        assert(chars@.skip(0) == chars@);
        assert(line@ == first_line(output@));
    }
    Some(cpu_line_sample_of(&line))
}

/// The samples of one capture of the memory report: one for each line that
/// holds the marker, in order; other lines give nothing.
pub fn parse_memory_output(output: &str) -> (samples: Vec<Sample>)
    ensures
        samples@ == memory_samples(output@),
{
    let chars = chars_of(output);
    let all = lines_of(&chars);
    let marker = chars_of("TOTAL PSS:");
    let mut samples: Vec<Sample> = Vec::new();
    let mut i: usize = 0;
    proof {
        assert(views(all@).take(0) == Seq::<Seq<char>>::empty());
        lemma_memory_samples_none();
    }
    while i < all.len()
        invariant
            i <= all.len(),
            marker@ == memory_marker(),
            samples@ == memory_samples_of_lines(views(all@).take(i as int)),
        decreases all.len() - i,
    {
        let line = &all[i];
        proof {
            assert(views(all@).take(i + 1) == views(all@).take(i as int).push(line@));
            lemma_memory_samples_push(views(all@).take(i as int), line@);
        }
        if has_text(line, &marker) {
            samples.push(memory_line_sample_of(line));
        }
        i += 1;
    }
    proof {
        assert(views(all@).take(all.len() as int) == views(all@));
    }
    samples
}

/// The samples that one capture of the tool's output gives for `kind`.
pub fn parse_output(kind: MetricKind, output: &str) -> (samples: Vec<Sample>)
    ensures
        samples@ == samples_of(kind, output@),
{
    match kind {
        MetricKind::Cpu => {
            let mut samples: Vec<Sample> = Vec::new();
            match parse_cpu_output(output) {
                Some(sample) => {
                    samples.push(sample);
                },
                None => {},
            }
            samples
        },
        MetricKind::Memory => parse_memory_output(output),
    }
}

} // verus!
