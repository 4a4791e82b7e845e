//! What this library relies on of `rust_xlsxwriter`'s worksheet. Nothing in
//! this file is proved: each contract says what the outside crate's source
//! shows.

use vstd::prelude::*;

verus! {

/// `rust_xlsxwriter::Worksheet`, of which this library sees nothing but what
/// `sheet_cells` and `sheet_name` name.
#[verifier::external_type_specification]
#[verifier::external_body]
pub struct ExWorksheet(rust_xlsxwriter::Worksheet);

/// `rust_xlsxwriter::XlsxError`, which this library carries and never reads.
#[verifier::external_type_specification]
#[verifier::external_body]
pub struct ExXlsxError(rust_xlsxwriter::XlsxError);

/// The number of rows of a worksheet: rows are numbered from zero up to,
/// and not including, this.
pub const SHEET_ROWS: u32 = 1_048_576;

/// The number of columns of a worksheet.
pub const SHEET_COLUMNS: u16 = 16_384;

/// The greatest number of characters that a cell takes.
pub const CELL_CHARS: usize = 32_767;

/// The greatest number of characters that a worksheet's name takes.
pub const NAME_CHARS: usize = 31;

/// The text cells of a worksheet: for each cell that holds a string, by row
/// and column, the string.
pub uninterp spec fn sheet_cells(sheet: rust_xlsxwriter::Worksheet) -> Map<(int, int), Seq<char>>;

/// The name of a worksheet.
pub uninterp spec fn sheet_name(sheet: rust_xlsxwriter::Worksheet) -> Seq<char>;

/// Whether a worksheet's name may hold `c`.
pub open spec fn name_char(c: char) -> bool {
    c != '*' && c != '?' && c != ':' && c != '[' && c != ']' && c != '\\' && c != '/'
}

/// Whether a worksheet takes `name`: it is not empty, has at most 31
/// characters, none of them one of `* ? : [ ] \ /`, and neither begins nor
/// ends with an apostrophe.
pub open spec fn valid_sheet_name(name: Seq<char>) -> bool {
    &&& 1 <= name.len() <= NAME_CHARS
    &&& forall|i: int| 0 <= i < name.len() ==> name_char(#[trigger] name[i])
    &&& name.first() != '\''
    &&& name.last() != '\''
}

/// Whether a worksheet takes `text` at `row` and `col`: both lie in the sheet
/// and the text has at most 32,767 characters.
pub open spec fn cell_fits(row: u32, col: u16, text: Seq<char>) -> bool {
    row < SHEET_ROWS && col < SHEET_COLUMNS && text.len() <= CELL_CHARS
}

/// `Worksheet::set_name`. It checks the name with the crate's
/// `validate_sheetname`, whose four tests `valid_sheet_name` repeats, and
/// stores it if they pass; otherwise it returns an error and stores nothing.
/// It does not touch the cells.
#[verifier::external_body]
pub(crate) fn set_sheet_name(sheet: &mut rust_xlsxwriter::Worksheet, name: &str) -> (done: Result<
    (),
    rust_xlsxwriter::XlsxError,
>)
    ensures
        done is Ok == valid_sheet_name(name@),
        sheet_name(*final(sheet)) == if done is Ok {
            name@
        } else {
            sheet_name(*old(sheet))
        },
        sheet_cells(*final(sheet)) == sheet_cells(*old(sheet)),
{
    match sheet.set_name(name) {
        Ok(_) => Ok(()),
        Err(error) => Err(error),
    }
}

/// `Worksheet::write_string`, for a worksheet in the crate's standard mode
/// (the one mode there is without its feature `constant_memory`). An empty
/// string is passed over without any test and without a cell. Any other
/// string is refused with an error if the row or the column lies outside the
/// sheet or the string has more than 32,767 characters, and is otherwise
/// stored as the cell at that row and column, in place of what was there.
/// Other cells and the name stay as they are.
#[verifier::external_body]
pub(crate) fn write_cell(
    sheet: &mut rust_xlsxwriter::Worksheet,
    row: u32,
    col: u16,
    text: &str,
) -> (done: Result<(), rust_xlsxwriter::XlsxError>)
    ensures
        done is Ok == (text@.len() == 0 || cell_fits(row, col, text@)),
        sheet_cells(*final(sheet)) == if done is Ok && text@.len() > 0 {
            sheet_cells(*old(sheet)).insert((row as int, col as int), text@)
        } else {
            sheet_cells(*old(sheet))
        },
        sheet_name(*final(sheet)) == sheet_name(*old(sheet)),
{
    match sheet.write_string(row, col, text) {
        Ok(_) => Ok(()),
        Err(error) => Err(error),
    }
}

} // verus!
