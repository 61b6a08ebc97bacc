//! The user's choice of what to scan: a disk of the table by its number, or
//! a path.

use crate::format::{decimal, decimal_text};
use crate::text::{trim, trimmed};
use vstd::prelude::*;
use vstd::string::StringExecFns;

verus! {

/// What the standard library's parser for `usize` makes of `text`, if it
/// makes a number of it.
pub uninterp spec fn parsed_usize(text: Seq<char>) -> Option<usize>;

/// Reads `text` as a decimal `usize` with `str::parse`; `None` where the
/// parser fails.
#[verifier::external_body]
pub(crate) fn parse_usize(text: &str) -> (number: Option<usize>)
    ensures
        number == parsed_usize(text@),
{
    text.parse::<usize>().ok()
}

/// The complaint about a number that no disk of `count` disks has.
pub open spec fn no_such_disk(index: nat, count: nat) -> Seq<char> {
    if count == 0 {
        "'"@ + decimal(index) + "' does not correspond to a disk. No disk is listed."@
    } else {
        "'"@ + decimal(index) + "' does not correspond to a disk. Enter a number between 0 and "@
            + decimal((count - 1) as nat) + " (inclusive)."@
    }
}

/// The path that the line `selection` chooses, once it has been read as the
/// number `index` or as none: a number chooses the path of the disk with
/// that number, anything else is taken for a path itself. Whitespace around
/// the path is dropped.
pub open spec fn selected_path(selection: Seq<char>, index: Option<usize>, disk_paths: Seq<String>)
    -> Result<Seq<char>, Seq<char>> {
    match index {
        Some(index) => if index < disk_paths.len() {
            Ok(trim(disk_paths[index as int]@))
        } else {
            Err(no_such_disk(index as nat, disk_paths.len()))
        },
        None => Ok(trim(selection)),
    }
}

/// The path that the line `selection` chooses, once it has been read as the
/// number `index` or as none.
pub fn select_path(selection: &str, index: Option<usize>, disk_paths: &Vec<String>) -> (result:
    Result<String, String>)
    ensures
        match selected_path(selection@, index, disk_paths@) {
            Ok(path) => result matches Ok(p) && p@ == path,
            Err(message) => result matches Err(m) && m@ == message,
        },
{
    match index {
        Some(index) => {
            if index < disk_paths.len() {
                Ok(String::from_str(trimmed(disk_paths[index].as_str())))
            } else if disk_paths.len() == 0 {
                Err(
                    String::from_str("'").concat(decimal_text(index as u64).as_str()).concat(
                        "' does not correspond to a disk. No disk is listed.",
                    ),
                )
            } else {
                Err(
                    String::from_str("'").concat(decimal_text(index as u64).as_str()).concat(
                        "' does not correspond to a disk. Enter a number between 0 and ",
                    ).concat(decimal_text((disk_paths.len() - 1) as u64).as_str()).concat(
                        " (inclusive).",
                    ),
                )
            }
        },
        None => Ok(String::from_str(trimmed(selection))),
    }
}

/// The path that the line `selection` chooses among the disks with the paths
/// `disk_paths`.
pub fn resolve_disk_selection(selection: &str, disk_paths: &Vec<String>) -> (result: Result<
    String,
    String,
>)
    ensures
        match selected_path(selection@, parsed_usize(trim(selection@)), disk_paths@) {
            Ok(path) => result matches Ok(p) && p@ == path,
            Err(message) => result matches Err(m) && m@ == message,
        },
{
    let index = parse_usize(trimmed(selection));
    select_path(selection, index, disk_paths)
}

} // verus!
