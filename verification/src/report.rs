//! The report of one metric: a row for each sample, then the peak and the
//! mean, as they go into a worksheet; and the name of the file that holds it.

use crate::aggregator::{summarize, summary};
use crate::decimal::micros_text;
use crate::metric::MetricKind;
use crate::sample::Sample;
use crate::series::Series;
use crate::sheet::{
    set_sheet_name, sheet_cells, sheet_name, valid_sheet_name, write_cell, CELL_CHARS, SHEET_ROWS,
};
use crate::stamp::{format_stamp, stamp_text};
use vstd::prelude::*;
use vstd::pervasive::unreached;
use vstd::string::*;

verus! {

/// Why there is no report, or why a worksheet does not take one.
#[derive(Clone, Copy, Debug, PartialEq, Eq, Structural)]
pub enum ReportError {
    /// The series holds no sample, so that it has neither peak nor mean.
    NoData,
    /// The samples and the two summary rows need more rows than a worksheet
    /// has.
    TooManyRows,
    /// A text has more characters than a cell takes.
    CellTooLong,
}

/// The report of one metric, as text.
#[derive(Debug)]
pub struct Report {
    /// The metric that was sampled.
    pub kind: MetricKind,
    /// The samples, in capture order.
    pub values: Vec<String>,
    /// The peak.
    pub max: String,
    /// The mean.
    pub average: String,
}

/// A report as plain values.
pub struct ReportText {
    /// The metric that was sampled.
    pub kind: MetricKind,
    /// The samples, in capture order.
    pub values: Seq<Seq<char>>,
    /// The peak.
    pub max: Seq<char>,
    /// The mean.
    pub average: Seq<char>,
}

impl View for Report {
    type V = ReportText;

    open spec fn view(&self) -> ReportText {
        ReportText {
            kind: self.kind,
            values: Seq::new(self.values@.len(), |i: int| self.values@[i]@),
            max: self.max@,
            average: self.average@,
        }
    }
}

/// The label of the row that holds the peak.
pub open spec fn max_label(kind: MetricKind) -> Seq<char> {
    match kind {
        MetricKind::Cpu => "Cpu Max"@,
        MetricKind::Memory => "Mem Max"@,
    }
}

/// The label of the row that holds the mean.
pub open spec fn average_label(kind: MetricKind) -> Seq<char> {
    match kind {
        MetricKind::Cpu => "Cpu Average"@,
        MetricKind::Memory => "Mem Average"@,
    }
}

/// The name of the worksheet that holds the report.
pub open spec fn data_name(kind: MetricKind) -> Seq<char> {
    match kind {
        MetricKind::Cpu => "Cpu Data"@,
        MetricKind::Memory => "Memory Data"@,
    }
}

/// The name of the file that holds the report of a run stamped `stamp`.
pub open spec fn file_name_text(kind: MetricKind, stamp: Seq<char>) -> Seq<char> {
    match kind {
        MetricKind::Cpu => "cpu_data_"@ + stamp + ".xlsx"@,
        MetricKind::Memory => "mem_data_"@ + stamp + ".xlsx"@,
    }
}

/// The report of `samples`: each sample, the peak and the mean as their
/// shortest decimal numerals. There is none without samples.
pub open spec fn report_of(kind: MetricKind, samples: Seq<Sample>) -> Result<
    ReportText,
    ReportError,
> {
    match summary(kind, samples) {
        Some(stats) => Ok(
            ReportText {
                kind,
                values: Seq::new(samples.len(), |i: int| micros_text(samples[i].micros as nat)),
                max: micros_text(stats.max.micros as nat),
                average: micros_text(stats.mean.micros as nat),
            },
        ),
        None => Err(ReportError::NoData),
    }
}

/// The label of the row that holds the peak.
pub fn max_label_of(kind: MetricKind) -> (label: &'static str)
    ensures
        label@ == max_label(kind),
{
    match kind {
        MetricKind::Cpu => "Cpu Max",
        MetricKind::Memory => "Mem Max",
    }
}

/// The label of the row that holds the mean.
pub fn average_label_of(kind: MetricKind) -> (label: &'static str)
    ensures
        label@ == average_label(kind),
{
    match kind {
        MetricKind::Cpu => "Cpu Average",
        MetricKind::Memory => "Mem Average",
    }
}

/// The name of the worksheet that holds the report.
pub fn data_name_of(kind: MetricKind) -> (name: &'static str)
    ensures
        name@ == data_name(kind),
{
    match kind {
        MetricKind::Cpu => "Cpu Data",
        MetricKind::Memory => "Memory Data",
    }
}

/// The report of a finished series. A series without samples has none.
pub fn build_report(kind: MetricKind, series: &Series) -> (report: Result<Report, ReportError>)
    ensures
        match report {
            Ok(built) => report_of(kind, series@) == Ok::<ReportText, ReportError>(built@),
            Err(error) => report_of(kind, series@) == Err::<ReportText, ReportError>(error),
        },
{
    let stats = match summarize(kind, series) {
        Some(stats) => stats,
        None => {
            return Err(ReportError::NoData);
        },
    };
    let samples = series.samples();
    let mut values: Vec<String> = Vec::new();
    let mut i: usize = 0;
    while i < samples.len()
        invariant
            i <= samples.len(),
            values@.len() == i,
            forall|k: int| 0 <= k < i ==> (#[trigger] values@[k])@ == micros_text(samples@[k].micros as nat),
        decreases samples.len() - i,
    {
        values.push(samples[i].to_text());
        i += 1;
    }
    let built = Report { kind, values, max: stats.max.to_text(), average: stats.mean.to_text() };
    assert(built@.values =~= report_of(kind, series@)->Ok_0.values);
    Ok(built)
}

/// The name of the file that holds the report of a run stamped `stamp`.
pub fn report_file_name(kind: MetricKind, stamp: &str) -> (name: String)
    ensures
        name@ == file_name_text(kind, stamp@),
{
    let mut name = match kind {
        MetricKind::Cpu => "cpu_data_".to_owned(),
        MetricKind::Memory => "mem_data_".to_owned(),
    };
    name.append(stamp);
    name.append(".xlsx");
    name
}

/// The name of the file that holds the report of a run that started at the
/// second `seconds`, counted from the start of 1970 in the time that the name
/// is to show. There is none where the second lies outside the years that a
/// stamp can name.
pub fn stamped_file_name(kind: MetricKind, seconds: i64) -> (name: Option<String>)
    ensures
        match name {
            Some(text) => stamp_text(seconds as int) matches Some(stamp) && text@
                == file_name_text(kind, stamp),
            None => stamp_text(seconds as int) is None,
        },
{
    match format_stamp(seconds) {
        Some(stamp) => Some(report_file_name(kind, stamp.as_str())),
        None => None,
    }
}

/// The text that the report puts into the cell at `row` and `col`: the
/// samples go down the second column from the first row on; the row behind
/// the last sample holds the label of the peak and the peak, and the row
/// after that the label of the mean and the mean.
pub open spec fn cell_text(report: ReportText, row: int, col: int) -> Option<Seq<char>> {
    let n = report.values.len() as int;
    if 0 <= row < n && col == 1 {
        Some(report.values[row])
    } else if row == n && col == 0 {
        Some(max_label(report.kind))
    } else if row == n && col == 1 {
        Some(report.max)
    } else if row == n + 1 && col == 0 {
        Some(average_label(report.kind))
    } else if row == n + 1 && col == 1 {
        Some(report.average)
    } else {
        None
    }
}

/// The place of a cell of the report in the order in which the cells are
/// written: the samples first, then the row of the peak, then that of the
/// mean, each row from the left.
spec fn cell_order(report: ReportText, row: int, col: int) -> int {
    let n = report.values.len() as int;
    if row < n {
        row
    } else {
        n + 2 * (row - n) + col
    }
}

/// The cells of the report that come before place `count` of the writing
/// order. A text without characters makes no cell.
spec fn cells_before(report: ReportText, count: int) -> Map<(int, int), Seq<char>> {
    Map::new(
        |cell: (int, int)|
            cell_text(report, cell.0, cell.1) is Some && cell_text(report, cell.0, cell.1)->0.len()
                > 0 && cell_order(report, cell.0, cell.1) < count,
        |cell: (int, int)| cell_text(report, cell.0, cell.1)->0,
    )
}

/// The cells that the report fills in a worksheet, by row and column. A text
/// without characters makes no cell.
pub open spec fn report_cells(report: ReportText) -> Map<(int, int), Seq<char>> {
    Map::new(
        |cell: (int, int)|
            cell_text(report, cell.0, cell.1) is Some && cell_text(report, cell.0, cell.1)->0.len()
                > 0,
        |cell: (int, int)| cell_text(report, cell.0, cell.1)->0,
    )
}

/// Whether each text of the report has few enough characters for a cell.
pub open spec fn texts_fit(report: ReportText) -> bool {
    &&& forall|i: int| 0 <= i < report.values.len() ==> (#[trigger] report.values[i]).len() <= CELL_CHARS
    &&& report.max.len() <= CELL_CHARS
    &&& report.average.len() <= CELL_CHARS
}

/// Why a worksheet does not take the report, if it does not.
pub open spec fn sheet_error(report: ReportText) -> Option<ReportError> {
    if report.values.len() + 2 > SHEET_ROWS {
        Some(ReportError::TooManyRows)
    } else if !texts_fit(report) {
        Some(ReportError::CellTooLong)
    } else {
        None
    }
}

/// Writing the cell at place `count` of the writing order adds it to the
/// cells before it, unless its text is empty.
proof fn lemma_cells_step(report: ReportText, row: int, col: int, count: int)
    requires
        cell_text(report, row, col) is Some,
        cell_order(report, row, col) == count,
        0 <= row,
        0 <= col <= 1,
    ensures
        cells_before(report, count + 1) == if cell_text(report, row, col)->0.len() > 0 {
            cells_before(report, count).insert((row, col), cell_text(report, row, col)->0)
        } else {
            cells_before(report, count)
        },
{
    let text = cell_text(report, row, col)->0;
    let after = cells_before(report, count + 1);
    let expected = if text.len() > 0 {
        cells_before(report, count).insert((row, col), text)
    } else {
        cells_before(report, count)
    };
    assert forall|cell: (int, int)| after.dom().contains(cell) == expected.dom().contains(
        cell,
    ) by {
        if cell_text(report, cell.0, cell.1) is Some {
            assert(cell_order(report, cell.0, cell.1) == count <==> cell == (row, col));
        }
    }
    assert(after =~= expected);
}

/// Whether some text among `texts` has more characters than a cell takes.
fn some_too_long(texts: &Vec<String>) -> (found: bool)
    ensures
        found == exists|i: int| 0 <= i < texts@.len() && (#[trigger] texts@[i])@.len() > CELL_CHARS,
{
    let mut i: usize = 0;
    while i < texts.len()
        invariant
            i <= texts.len(),
            forall|k: int| 0 <= k < i ==> (#[trigger] texts@[k])@.len() <= CELL_CHARS,
        decreases texts.len() - i,
    {
        if texts[i].as_str().unicode_len() > CELL_CHARS {
            return true;
        }
        i += 1;
    }
    false
}

/// Why a worksheet does not take the report, if it does not.
pub fn check_report(report: &Report) -> (error: Option<ReportError>)
    ensures
        error == sheet_error(report@),
{
    if report.values.len() > (SHEET_ROWS - 2) as usize {
        return Some(ReportError::TooManyRows);
    }
    let long_value = some_too_long(&report.values);
    proof {
        if long_value {
            let i = choose|i: int|
                0 <= i < report.values@.len() && (#[trigger] report.values@[i])@.len() > CELL_CHARS;
            assert(report@.values[i].len() > CELL_CHARS);
        } else {
            assert forall|i: int| 0 <= i < report@.values.len() implies (
            #[trigger] report@.values[i]).len() <= CELL_CHARS by {
                assert(report.values@[i]@.len() <= CELL_CHARS);
            }
        }
    }
    if long_value || report.max.as_str().unicode_len() > CELL_CHARS
        || report.average.as_str().unicode_len() > CELL_CHARS {
        return Some(ReportError::CellTooLong);
    }
    None
}

/// The names of the two worksheets are names that a worksheet takes.
proof fn lemma_data_names_valid(kind: MetricKind)
    ensures
        valid_sheet_name(data_name(kind)),
{
    reveal_strlit("Cpu Data");
    reveal_strlit("Memory Data");
}

/// The labels of the summary rows are not empty and fit a cell.
proof fn lemma_labels_fit(kind: MetricKind)
    ensures
        0 < max_label(kind).len() <= CELL_CHARS,
        0 < average_label(kind).len() <= CELL_CHARS,
{
    reveal_strlit("Cpu Max");
    reveal_strlit("Mem Max");
    reveal_strlit("Cpu Average");
    reveal_strlit("Mem Average");
}

/// Puts one cell of the report into the worksheet.
fn put_cell(
    sheet: &mut rust_xlsxwriter::Worksheet,
    report: &Report,
    row: u32,
    col: u16,
    text: &str,
    Ghost(before): Ghost<Map<(int, int), Seq<char>>>,
)
    requires
        sheet_error(report@) is None,
        cell_text(report@, row as int, col as int) == Some(text@),
        row < report@.values.len() + 2,
        sheet_cells(*old(sheet)) == before.union_prefer_right(
            cells_before(report@, cell_order(report@, row as int, col as int)),
        ),
    ensures
        sheet_name(*final(sheet)) == sheet_name(*old(sheet)),
        sheet_cells(*final(sheet)) == before.union_prefer_right(
            cells_before(report@, cell_order(report@, row as int, col as int) + 1),
        ),
{
    proof {
        lemma_labels_fit(report.kind);
        lemma_cells_step(
            report@,
            row as int,
            col as int,
            cell_order(report@, row as int, col as int),
        );
    }
    let ghost count = cell_order(report@, row as int, col as int);
    match write_cell(sheet, row, col, text) {
        Ok(_) => {
            assert(sheet_cells(*sheet) =~= before.union_prefer_right(
                cells_before(report@, count + 1),
            ));
        },
        Err(_) => unreached(),
    }
}

/// Writes the report into `sheet`: names the sheet after the metric, puts the
/// samples down the second column from the first row on, and behind them the
/// row of the peak and the row of the mean, each with its label in the first
/// column. Cells that the report does not fill stay as they are. Where the
/// sheet cannot take the report, nothing is written.
pub fn write_report(sheet: &mut rust_xlsxwriter::Worksheet, report: &Report) -> (done: Result<
    (),
    ReportError,
>)
    ensures
        match done {
            Ok(_) => {
                &&& sheet_error(report@) is None
                &&& sheet_name(*final(sheet)) == data_name(report@.kind)
                &&& sheet_cells(*final(sheet)) == sheet_cells(*old(sheet)).union_prefer_right(
                    report_cells(report@),
                )
            },
            Err(error) => {
                &&& sheet_error(report@) == Some(error)
                &&& sheet_name(*final(sheet)) == sheet_name(*old(sheet))
                &&& sheet_cells(*final(sheet)) == sheet_cells(*old(sheet))
            },
        },
{
    match check_report(report) {
        Some(error) => {
            return Err(error);
        },
        None => {},
    }
    let ghost before = sheet_cells(*sheet);
    proof {
        lemma_data_names_valid(report.kind);
    }
    match set_sheet_name(sheet, data_name_of(report.kind)) {
        Ok(_) => {},
        Err(_) => unreached(),
    }
    let n = report.values.len();
    let mut i: usize = 0;
    proof {
        assert(sheet_cells(*sheet) =~= before.union_prefer_right(cells_before(report@, 0)));
    }
    while i < n
        invariant
            i <= n,
            n == report.values.len(),
            sheet_error(report@) is None,
            sheet_name(*sheet) == data_name(report@.kind),
            sheet_cells(*sheet) == before.union_prefer_right(cells_before(report@, i as int)),
        decreases n - i,
    {
        put_cell(sheet, report, i as u32, 1, report.values[i].as_str(), Ghost(before));
        i += 1;
    }
    let peak_row: u32 = n as u32;
    let mean_row: u32 = peak_row + 1;
    put_cell(sheet, report, peak_row, 0, max_label_of(report.kind), Ghost(before));
    put_cell(sheet, report, peak_row, 1, report.max.as_str(), Ghost(before));
    put_cell(sheet, report, mean_row, 0, average_label_of(report.kind), Ghost(before));
    put_cell(sheet, report, mean_row, 1, report.average.as_str(), Ghost(before));
    proof {
        assert(cells_before(report@, n + 4) =~= report_cells(report@));
    }
    Ok(())
}

} // verus!
