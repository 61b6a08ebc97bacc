//! The disks that can be scanned, described for the user.

use crate::format::{decimal, decimal_text, signed_decimal, signed_decimal_text};
use crate::math_util::{ceil_div, ceil_divide};
use vstd::prelude::*;
use vstd::string::{StringExecFns, StringSliceAdditionalSpecFns};
use vstd::utf8::{decode_utf8, valid_utf8};

verus! {

/// The hardware that a disk is made of.
#[derive(Debug, Clone, Copy, PartialEq, Eq, Structural)]
pub enum DiskKind {
    /// A hard disk drive.
    Hdd,
    /// A solid state drive.
    Ssd,
    /// Something else; the number is what the system reported.
    Unknown(isize),
}

/// What is known of one disk.
#[derive(Debug, Clone, PartialEq, Eq)]
pub struct Disk {
    /// The name of the disk as the user knows it.
    pub name: String,
    /// The path that the root of the disk is mounted at.
    pub mount_point: String,
    /// Number of bytes that the disk holds.
    pub total_space: u64,
    /// Number of bytes that are free.
    pub available_space: u64,
    /// The file system's name, as the bytes that the system reported.
    pub file_system: Vec<u8>,
    /// The hardware of the disk.
    pub kind: DiskKind,
    /// Whether the disk can be removed.
    pub removable: bool,
}

/// A table of text that describes disks: one row per disk, in five columns.
/// The columns hold the name, the mount point, the used and the total space,
/// the file system and the media type.
pub type DiskInfo = [Vec<String>; 5];

/// Number of the unit that space on a disk of `total` bytes is measured in:
/// the largest power of 1024 that `total` reaches, but none beyond the last
/// unit that has a name.
pub open spec fn unit_order(total: nat) -> nat {
    if total < 0x400 {
        0
    } else if total < 0x10_0000 {
        1
    } else if total < 0x4000_0000 {
        2
    } else if total < 0x100_0000_0000 {
        3
    } else if total < 0x4_0000_0000_0000 {
        4
    } else {
        5
    }
}

/// Number of bytes in the unit number `order`: 1024 to the power `order`.
pub open spec fn unit_factor(order: nat) -> nat {
    if order == 0 {
        1
    } else if order == 1 {
        0x400
    } else if order == 2 {
        0x10_0000
    } else if order == 3 {
        0x4000_0000
    } else if order == 4 {
        0x100_0000_0000
    } else {
        0x4_0000_0000_0000
    }
}

/// Name of the unit number `order`.
pub open spec fn unit_suffix(order: nat) -> Seq<char> {
    if order == 0 {
        "B"@
    } else if order == 1 {
        "KB"@
    } else if order == 2 {
        "MB"@
    } else if order == 3 {
        "GB"@
    } else if order == 4 {
        "TB"@
    } else {
        "PB"@
    }
}

/// The used and the total space of a disk, both rounded up to whole units.
pub open spec fn space_summary(total: nat, available: nat) -> Seq<char> {
    let order = unit_order(total);
    let factor = unit_factor(order) as int;
    decimal(ceil_div(total - available, factor) as nat) + " "@ + unit_suffix(order) + " / "@
        + decimal(ceil_div(total as int, factor) as nat) + " "@ + unit_suffix(order)
}

/// The numbers of `bytes`, with a comma and a space between them.
pub open spec fn byte_items(bytes: Seq<u8>) -> Seq<char>
    decreases bytes.len(),
{
    if bytes.len() == 0 {
        Seq::empty()
    } else if bytes.len() == 1 {
        decimal(bytes[0] as nat)
    } else {
        byte_items(bytes.drop_last()) + ", "@ + decimal(bytes.last() as nat)
    }
}

/// The name of a file system: the text that `bytes` encode, or, if they
/// encode none, their numbers in square brackets.
pub open spec fn file_system_name(bytes: Seq<u8>) -> Seq<char> {
    if valid_utf8(bytes) {
        decode_utf8(bytes)
    } else {
        "["@ + byte_items(bytes) + "]"@
    }
}

/// The name of a kind of hardware.
pub open spec fn kind_name(kind: DiskKind) -> Seq<char> {
    match kind {
        DiskKind::Hdd => "HDD"@,
        DiskKind::Ssd => "SSD"@,
        DiskKind::Unknown(code) => "Unknown("@ + signed_decimal(code as int) + ")"@,
    }
}

/// The media type of a disk: its hardware, and whether it can be removed.
pub open spec fn media_type(kind: DiskKind, removable: bool) -> Seq<char> {
    kind_name(kind) + " ("@ + (if removable {
        "external"@
    } else {
        "internal"@
    }) + ")"@
}

/// The text that `bytes` encode, by `std::str::from_utf8`: there is one if
/// and only if the bytes are valid UTF-8, and its bytes are those given.
#[verifier::external_body]
fn from_utf8(bytes: &[u8]) -> (text: Option<&str>)
    ensures
        text is Some <==> valid_utf8(bytes@),
        text matches Some(s) ==> s.spec_bytes() == bytes@,
{
    std::str::from_utf8(bytes).ok()
}

impl Disk {
    /// No more space is free than there is.
    pub open spec fn wf(&self) -> bool {
        self.available_space <= self.total_space
    }

    /// Whether no more space is reported free than there is.
    pub fn is_consistent(&self) -> (consistent: bool)
        ensures
            consistent == self.wf(),
    {
        self.available_space <= self.total_space
    }
}

/// The unit that space on a disk of `total` bytes is measured in: its number
/// of bytes and its name.
pub fn unit_for(total: u64) -> (unit: (u64, &'static str))
    ensures
        unit.0 == unit_factor(unit_order(total as nat)),
        unit.1@ == unit_suffix(unit_order(total as nat)),
{
    if total < 0x400 {
        (1, "B")
    } else if total < 0x10_0000 {
        (0x400, "KB")
    } else if total < 0x4000_0000 {
        (0x10_0000, "MB")
    } else if total < 0x100_0000_0000 {
        (0x4000_0000, "GB")
    } else if total < 0x4_0000_0000_0000 {
        (0x100_0000_0000, "TB")
    } else {
        (0x4_0000_0000_0000, "PB")
    }
}

/// The used and the total space of a disk, in the largest unit that the total
/// reaches.
pub fn summarize_space(total: u64, available: u64) -> (text: String)
    requires
        available <= total,
    ensures
        text@ == space_summary(total as nat, available as nat),
{
    let (factor, suffix) = unit_for(total);
    let used = ceil_divide(total - available, factor);
    let whole = ceil_divide(total, factor);
    decimal_text(used).concat(" ").concat(suffix).concat(" / ").concat(
        decimal_text(whole).as_str(),
    ).concat(" ").concat(suffix)
}

/// The numbers of `bytes` in square brackets.
pub fn list_bytes(bytes: &[u8]) -> (text: String)
    ensures
        text@ == "["@ + byte_items(bytes@) + "]"@,
{
    let mut text = String::from_str("[");
    let mut i: usize = 0;
    assert(bytes@.take(0) =~= Seq::<u8>::empty());
    assert(text@ =~= "["@ + byte_items(bytes@.take(0)));
    while i < bytes.len()
        invariant
            i <= bytes@.len(),
            text@ == "["@ + byte_items(bytes@.take(i as int)),
        decreases bytes@.len() - i,
    {
        let ghost before = bytes@.take(i as int);
        let ghost after = bytes@.take(i + 1);
        assert(after.drop_last() =~= before);
        assert(after.last() == bytes@[i as int]);
        if i > 0 {
            text.append(", ");
        }
        text.append(decimal_text(bytes[i] as u64).as_str());
        i += 1;
        assert(text@ =~= "["@ + byte_items(after));
    }
    assert(bytes@.take(i as int) =~= bytes@);
    text.append("]");
    text
}

/// The name of a file system from the bytes that the system reported.
pub fn name_file_system(bytes: &[u8]) -> (text: String)
    ensures
        text@ == file_system_name(bytes@),
{
    match from_utf8(bytes) {
        Some(name) => {
            proof {
                vstd::utf8::encode_utf8_decode_utf8(name@);
                assert(decode_utf8(name.spec_bytes()) == name@);
            }
            String::from_str(name)
        },
        None => list_bytes(bytes),
    }
}

/// The media type of a disk: its hardware, and whether it can be removed.
pub fn describe_media(kind: DiskKind, removable: bool) -> (text: String)
    ensures
        text@ == media_type(kind, removable),
{
    let name = match kind {
        DiskKind::Hdd => String::from_str("HDD"),
        DiskKind::Ssd => String::from_str("SSD"),
        DiskKind::Unknown(code) => String::from_str("Unknown(").concat(
            signed_decimal_text(code as i64).as_str(),
        ).concat(")"),
    };
    name.concat(" (").concat(
        if removable {
            "external"
        } else {
            "internal"
        },
    ).concat(")")
}

/// The row of the table that describes `disk`, column by column.
pub open spec fn disk_row(disk: Disk) -> Seq<Seq<char>> {
    seq![
        disk.name@,
        disk.mount_point@,
        space_summary(disk.total_space as nat, disk.available_space as nat),
        file_system_name(disk.file_system@),
        media_type(disk.kind, disk.removable),
    ]
}

/// The table of text that describes `disks`, which the system reported.
pub fn get_disk_info(disks: &Vec<Disk>) -> (table: DiskInfo)
    requires
        forall|i: int| 0 <= i < disks@.len() ==> (#[trigger] disks@[i]).wf(),
    ensures
        forall|column: int| 0 <= column < 5 ==> (#[trigger] table@[column])@.len() == disks@.len(),
        forall|column: int, i: int|
            0 <= column < 5 && 0 <= i < disks@.len() ==> (#[trigger] table@[column]@[i])@
                == disk_row(disks@[i])[column],
{
    let mut names: Vec<String> = Vec::new();
    let mut mount_points: Vec<String> = Vec::new();
    let mut spaces: Vec<String> = Vec::new();
    let mut file_systems: Vec<String> = Vec::new();
    let mut media_types: Vec<String> = Vec::new();
    let mut i: usize = 0;
    while i < disks.len()
        invariant
            i <= disks@.len(),
            forall|j: int| 0 <= j < disks@.len() ==> (#[trigger] disks@[j]).wf(),
            names@.len() == i,
            mount_points@.len() == i,
            spaces@.len() == i,
            file_systems@.len() == i,
            media_types@.len() == i,
            forall|j: int| 0 <= j < i ==> (#[trigger] names@[j])@ == disk_row(disks@[j])[0],
            forall|j: int| 0 <= j < i ==> (#[trigger] mount_points@[j])@ == disk_row(disks@[j])[1],
            forall|j: int| 0 <= j < i ==> (#[trigger] spaces@[j])@ == disk_row(disks@[j])[2],
            forall|j: int| 0 <= j < i ==> (#[trigger] file_systems@[j])@ == disk_row(disks@[j])[3],
            forall|j: int| 0 <= j < i ==> (#[trigger] media_types@[j])@ == disk_row(disks@[j])[4],
        decreases disks@.len() - i,
    {
        let disk = &disks[i];
        assert(disk.wf());
        names.push(String::from_str(disk.name.as_str()));
        mount_points.push(String::from_str(disk.mount_point.as_str()));
        spaces.push(summarize_space(disk.total_space, disk.available_space));
        file_systems.push(name_file_system(disk.file_system.as_slice()));
        media_types.push(describe_media(disk.kind, disk.removable));
        proof {
            let row = disk_row(disks@[i as int]);
            assert(names@[i as int]@ == row[0]);
            assert(mount_points@[i as int]@ == row[1]);
            assert(spaces@[i as int]@ == row[2]);
            assert(file_systems@[i as int]@ == row[3]);
            assert(media_types@[i as int]@ == row[4]);
        }
        i += 1;
    }
    let table = [names, mount_points, spaces, file_systems, media_types];
    assert forall|column: int, j: int|
        0 <= column < 5 && 0 <= j < disks@.len() implies (#[trigger] table@[column]@[j])@
        == disk_row(disks@[j])[column] by {
        assert(names@[j]@ == disk_row(disks@[j])[0]);
        assert(mount_points@[j]@ == disk_row(disks@[j])[1]);
        assert(spaces@[j]@ == disk_row(disks@[j])[2]);
        assert(file_systems@[j]@ == disk_row(disks@[j])[3]);
        assert(media_types@[j]@ == disk_row(disks@[j])[4]);
    }
    table
}

} // verus!
