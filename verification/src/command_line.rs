//! What the command line shows of the disks, and what it makes of the user's
//! choice among them.

pub mod input;
pub mod output;
