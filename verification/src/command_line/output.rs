//! The table of disks as lines of text.

use crate::disk_info::DiskInfo;
use crate::format::{centered, decimal, decimal_text, left_aligned, pad_both, pad_right};
use vstd::prelude::*;
use vstd::string::StringExecFns;
use vstd::utf8::encode_utf8;

verus! {

/// Number of bytes that `text` takes, as `str::len` counts them.
pub open spec fn byte_len(text: Seq<char>) -> usize {
    encode_utf8(text).len() as usize
}

/// Width of a column: the number of bytes of its longest cell.
pub open spec fn column_width(cells: Seq<String>) -> usize
    decreases cells.len(),
{
    if cells.len() == 0 {
        0
    } else {
        let rest = column_width(cells.drop_last());
        if byte_len(cells.last()@) > rest {
            byte_len(cells.last()@)
        } else {
            rest
        }
    }
}

/// The five cells `cells`, each set into its column by `align` and the
/// columns four spaces apart.
pub open spec fn joined_cells(
    cells: Seq<Seq<char>>,
    widths: Seq<nat>,
    align: spec_fn(Seq<char>, nat) -> Seq<char>,
) -> Seq<char> {
    align(cells[0], widths[0]) + "    "@ + align(cells[1], widths[1]) + "    "@ + align(
        cells[2],
        widths[2],
    ) + "    "@ + align(cells[3], widths[3]) + "    "@ + align(cells[4], widths[4])
}

/// The titles of the five columns.
pub open spec fn titles() -> Seq<Seq<char>> {
    seq!["NAME"@, " MOUNT POINT"@, " USED / TOTAL"@, "FS"@, "MEDIA TYPE"@]
}

/// The line of titles, each centered over its column.
pub open spec fn header_line(widths: Seq<nat>) -> Seq<char> {
    "        "@ + joined_cells(titles(), widths, |text: Seq<char>, width: nat| centered(text, width))
}

/// The line of the disk number `index`: its number in square brackets, and
/// its cells, each at the left of its column.
pub open spec fn row_line(index: nat, cells: Seq<Seq<char>>, widths: Seq<nat>) -> Seq<char> {
    "    ["@ + decimal(index) + "] "@ + joined_cells(
        cells,
        widths,
        |text: Seq<char>, width: nat| left_aligned(text, width),
    )
}

/// The widths of the five columns of `table`.
pub open spec fn widths_of(table: DiskInfo) -> Seq<nat> {
    Seq::new(5, |column: int| column_width(table@[column]@) as nat)
}

/// The cells of row `row` of `table`.
pub open spec fn cells_of(table: DiskInfo, row: int) -> Seq<Seq<char>> {
    Seq::new(5, |column: int| table@[column]@[row]@)
}

/// Width of a column: the number of bytes of its longest cell.
pub fn measure_column(cells: &Vec<String>) -> (width: usize)
    ensures
        width == column_width(cells@),
{
    let mut width: usize = 0;
    let mut i: usize = 0;
    assert(cells@.take(0) =~= Seq::<String>::empty());
    while i < cells.len()
        invariant
            i <= cells@.len(),
            width == column_width(cells@.take(i as int)),
        decreases cells@.len() - i,
    {
        assert(cells@.take(i + 1).drop_last() =~= cells@.take(i as int));
        let len = cells[i].as_str().len();
        if len > width {
            width = len;
        }
        i += 1;
    }
    assert(cells@.take(i as int) =~= cells@);
    width
}

/// The table as lines of text: the titles, then one line for each row of
/// the first column. No column may be shorter than the first; a column is as
/// wide as the longest of all its cells.
pub fn disk_table_lines(disk_info: &DiskInfo) -> (lines: Vec<String>)
    requires
        forall|column: int|
            0 <= column < 5 ==> (#[trigger] disk_info@[column])@.len() >= disk_info@[0]@.len(),
    ensures
        lines@.len() == disk_info@[0]@.len() + 1,
        lines@[0]@ == header_line(widths_of(*disk_info)),
        forall|row: int|
            0 <= row < disk_info@[0]@.len() ==> (#[trigger] lines@[row + 1])@ == row_line(
                row as nat,
                cells_of(*disk_info, row),
                widths_of(*disk_info),
            ),
{
    let w0 = measure_column(&disk_info[0]);
    let w1 = measure_column(&disk_info[1]);
    let w2 = measure_column(&disk_info[2]);
    let w3 = measure_column(&disk_info[3]);
    let w4 = measure_column(&disk_info[4]);
    let ghost widths = widths_of(*disk_info);
    let mut lines: Vec<String> = Vec::new();
    let header = String::from_str("        ").concat(pad_both("NAME", w0).as_str()).concat(
        "    ",
    ).concat(pad_both(" MOUNT POINT", w1).as_str()).concat("    ").concat(
        pad_both(" USED / TOTAL", w2).as_str(),
    ).concat("    ").concat(pad_both("FS", w3).as_str()).concat("    ").concat(
        pad_both("MEDIA TYPE", w4).as_str(),
    );
    assert(header@ == header_line(widths));
    lines.push(header);
    let rows = disk_info[0].len();
    let mut i: usize = 0;
    while i < rows
        invariant
            i <= rows,
            rows == disk_info@[0]@.len(),
            forall|column: int|
                0 <= column < 5 ==> (#[trigger] disk_info@[column])@.len() >= disk_info@[0]@.len(),
            widths == widths_of(*disk_info),
            w0 == widths[0],
            w1 == widths[1],
            w2 == widths[2],
            w3 == widths[3],
            w4 == widths[4],
            lines@.len() == i + 1,
            lines@[0]@ == header_line(widths),
            forall|row: int|
                0 <= row < i ==> (#[trigger] lines@[row + 1])@ == row_line(
                    row as nat,
                    cells_of(*disk_info, row),
                    widths,
                ),
        decreases rows - i,
    {
        assert(disk_info@[1]@.len() >= rows && disk_info@[2]@.len() >= rows && disk_info@[3]@.len()
            >= rows && disk_info@[4]@.len() >= rows);
        let ghost cells = cells_of(*disk_info, i as int);
        let line = String::from_str("    [").concat(decimal_text(i as u64).as_str()).concat(
            "] ",
        ).concat(pad_right(disk_info[0][i].as_str(), w0).as_str()).concat("    ").concat(
            pad_right(disk_info[1][i].as_str(), w1).as_str(),
        ).concat("    ").concat(pad_right(disk_info[2][i].as_str(), w2).as_str()).concat(
            "    ",
        ).concat(pad_right(disk_info[3][i].as_str(), w3).as_str()).concat("    ").concat(
            pad_right(disk_info[4][i].as_str(), w4).as_str(),
        );
        assert(line@ == row_line(i as nat, cells, widths));
        lines.push(line);
        i += 1;
    }
    lines
}

} // verus!
