//! What a command does to a session: where the reading position goes, and
//! what is left for the surrounding program to do.

use crate::command::{Command, CommandView, Find, FindView, Help, Print, Seek};
use crate::sector::SectorSize;
use crate::sector_map::{is_next_occupied, SectorMap};
use crate::segment::SegmentView;
use vstd::prelude::*;

verus! {

/// The mathematical content of a session.
pub struct SessionView {
    /// The reading position, a byte offset on the device.
    pub position: int,
    /// Number of bytes of the device.
    pub device_bytes: int,
    /// The sector size that the sector map was built with.
    pub sector_size: SectorSize,
}

impl SessionView {
    /// The reading position lies on the device or at its end.
    pub open spec fn wf(self) -> bool {
        0 <= self.position <= self.device_bytes <= u64::MAX
    }

    /// The session with the reading position at `position`.
    pub open spec fn at(self, position: int) -> SessionView {
        SessionView { position, ..self }
    }

    /// The sector from which a search for the next occupied sector starts:
    /// the one after the sector that holds the reading position.
    pub open spec fn search_start(self) -> int {
        self.position / self.sector_size.byte_len() + 1
    }
}

/// What the surrounding program is to do after a command.
#[derive(Debug, Clone, PartialEq, Eq)]
pub enum Action {
    /// Nothing.
    Nothing,
    /// Tell the user that the reading position is now `position`.
    Moved { position: u64 },
    /// Tell the user that the position asked for does not lie on the device.
    OutOfRange,
    /// Tell the user that no occupied sector follows.
    NotFound,
    /// Look for the pattern of the command in the bytes of the device, from
    /// the reading position on.
    Search(Find),
    /// Read `length` bytes at `offset` and show them.
    Show { offset: u64, length: u64 },
    /// Explain the topic.
    Explain(Help),
    /// End the session.
    Exit,
}

/// The mathematical content of an action.
pub enum ActionView {
    Nothing,
    Moved { position: u64 },
    OutOfRange,
    NotFound,
    Search(FindView),
    Show { offset: u64, length: u64 },
    Explain(Help),
    Exit,
}

impl View for Action {
    type V = ActionView;

    open spec fn view(&self) -> ActionView {
        match self {
            Action::Nothing => ActionView::Nothing,
            Action::Moved { position } => ActionView::Moved { position: *position },
            Action::OutOfRange => ActionView::OutOfRange,
            Action::NotFound => ActionView::NotFound,
            Action::Search(find) => ActionView::Search(find@),
            Action::Show { offset, length } => ActionView::Show {
                offset: *offset,
                length: *length,
            },
            Action::Explain(help) => ActionView::Explain(*help),
            Action::Exit => ActionView::Exit,
        }
    }
}

/// The outcome of moving the reading position to `target`: it moves there if
/// `target` lies on the device or at its end, and stays where it is if not.
pub open spec fn moved_to(before: SessionView, target: int, after: SessionView, action: ActionView)
    -> bool {
    if 0 <= target <= before.device_bytes {
        after == before.at(target) && action == (ActionView::Moved { position: target as u64 })
    } else {
        after == before && action == ActionView::OutOfRange
    }
}

/// The outcome of a search for the next occupied sector: the reading
/// position moves to the start of the first occupied sector after the one
/// that holds it, if there is one on the device.
pub open spec fn moved_to_next_occupied(
    before: SessionView,
    segs: Seq<SegmentView>,
    after: SessionView,
    action: ActionView,
) -> bool {
    let size = before.sector_size.byte_len();
    if exists|addr: int|
        is_next_occupied(segs, before.search_start(), Some(addr)) && addr * size
            < before.device_bytes {
        exists|addr: int|
            is_next_occupied(segs, before.search_start(), Some(addr)) && after == before.at(
                addr * size,
            ) && action == (ActionView::Moved { position: (addr * size) as u64 })
    } else {
        after == before && action == ActionView::NotFound
    }
}

/// Whether the command `command` leads from the session `before` to the
/// session `after` and asks for `action`.
pub open spec fn is_step(
    before: SessionView,
    segs: Seq<SegmentView>,
    command: CommandView,
    after: SessionView,
    action: ActionView,
) -> bool {
    match command {
        CommandView::Seek(Seek::Absolute(position)) => moved_to(before, position as int, after, action),
        CommandView::Seek(Seek::Relative(offset)) => moved_to(
            before,
            before.position + offset,
            after,
            action,
        ),
        CommandView::Find(FindView::NonZero) => moved_to_next_occupied(before, segs, after, action),
        CommandView::Find(find) => after == before && action == ActionView::Search(find),
        CommandView::Print(Print(count)) => after == before && action == (ActionView::Show {
            offset: before.position as u64,
            length: if count <= before.device_bytes - before.position {
                count
            } else {
                (before.device_bytes - before.position) as u64
            },
        }),
        CommandView::Config(_) => after == before && action == ActionView::Nothing,
        CommandView::Help(help) => after == before && action == ActionView::Explain(help),
        CommandView::Exit => after == before && action == ActionView::Exit,
        CommandView::Nothing => after == before && action == ActionView::Nothing,
    }
}

/// A session with a device: where the user is reading.
#[derive(Debug, Clone, Copy, PartialEq, Eq)]
pub struct Session {
    position: u64,
    device_bytes: u64,
    sector_size: SectorSize,
}

impl View for Session {
    type V = SessionView;

    closed spec fn view(&self) -> SessionView {
        SessionView {
            position: self.position as int,
            device_bytes: self.device_bytes as int,
            sector_size: self.sector_size,
        }
    }
}

impl Session {
    /// Well-formedness of the session.
    pub open spec fn wf(&self) -> bool {
        self@.wf()
    }

    /// A session at the start of a device of `device_bytes` bytes.
    pub fn new(device_bytes: u64, sector_size: SectorSize) -> (session: Session)
        ensures
            session.wf(),
            session@ == (SessionView { position: 0, device_bytes: device_bytes as int, sector_size }),
    {
        Session { position: 0, device_bytes, sector_size }
    }

    /// The reading position, a byte offset on the device.
    pub fn position(&self) -> (position: u64)
        ensures
            position == self@.position,
    {
        self.position
    }

    /// Moves the reading position to `target` if that lies on the device.
    fn move_to(&mut self, target: i128) -> (action: Action)
        requires
            old(self).wf(),
        ensures
            final(self).wf(),
            moved_to(old(self)@, target as int, final(self)@, action@),
    {
        if 0 <= target && target <= self.device_bytes as i128 {
            self.position = target as u64;
            Action::Moved { position: target as u64 }
        } else {
            Action::OutOfRange
        }
    }

    /// Moves the reading position to the next occupied sector that `map`
    /// knows of.
    fn move_to_next_occupied(&mut self, map: &SectorMap) -> (action: Action)
        requires
            old(self).wf(),
            map.wf(),
        ensures
            final(self).wf(),
            moved_to_next_occupied(old(self)@, map@, final(self)@, action@),
    {
        let ghost before = self@;
        let ghost size = self.sector_size.byte_len();
        let here = self.sector_size.sector_of(self.position);
        if here == u64::MAX {
            proof {
                assert forall|addr: int|
                    !(is_next_occupied(map@, before.search_start(), Some(addr)) && addr * size
                        < before.device_bytes) by {
                    if before.search_start() <= addr {
                        assert(addr * size >= before.device_bytes) by (nonlinear_arith)
                            requires
                                addr > u64::MAX,
                                size >= 1,
                                before.device_bytes <= u64::MAX,
                        ;
                    }
                }
            }
            return Action::NotFound;
        }
        let found = map.next_occupied(here + 1);
        let target = match found {
            Some(addr) => self.sector_size.byte_offset(addr),
            None => None,
        };
        proof {
            // The first occupied sector from a given start is unique.
            assert forall|a: int, b: int|
                is_next_occupied(map@, before.search_start(), Some(a)) && is_next_occupied(
                    map@,
                    before.search_start(),
                    Some(b),
                ) implies a == b by {
                if a < b {
                    assert(!crate::sector_map::occupied(map@, a));
                } else if b < a {
                    assert(!crate::sector_map::occupied(map@, b));
                }
            }
        }
        match target {
            Some(offset) => {
                if offset < self.device_bytes {
                    self.position = offset;
                    proof {
                        let addr = found->0 as int;
                        assert(here + 1 == before.search_start());
                        assert(is_next_occupied(map@, before.search_start(), Some(addr)));
                        assert(addr * size == offset);
                        assert(self@ == before.at(addr * size));
                    }
                    return Action::Moved { position: offset };
                }
            },
            None => {},
        }
        proof {
            assert forall|addr: int|
                !(is_next_occupied(map@, before.search_start(), Some(addr)) && addr * size
                    < before.device_bytes) by {
                if is_next_occupied(map@, before.search_start(), Some(addr)) {
                    match found {
                        Some(first) => {
                            assert(is_next_occupied(
                                map@,
                                before.search_start(),
                                Some(first as int),
                            ));
                            assert(addr == first);
                        },
                        None => {
                            assert(!crate::sector_map::occupied(map@, addr));
                        },
                    }
                }
            }
        }
        Action::NotFound
    }
}

/// Carries out `command` as far as the session goes, and says what is left
/// for the surrounding program to do. `map` answers where the next occupied
/// sector lies.
pub fn process_command(session: &mut Session, map: &SectorMap, command: Command) -> (action: Action)
    requires
        old(session).wf(),
        map.wf(),
    ensures
        final(session).wf(),
        is_step(old(session)@, map@, command@, final(session)@, action@),
{
    match command {
        Command::Seek(Seek::Absolute(position)) => session.move_to(position as i128),
        Command::Seek(Seek::Relative(offset)) => {
            let target = session.position as i128 + offset as i128;
            session.move_to(target)
        },
        Command::Find(Find::NonZero) => session.move_to_next_occupied(map),
        Command::Find(find) => Action::Search(find),
        Command::Print(print) => {
            let left = session.device_bytes - session.position;
            let count = print.byte_count();
            Action::Show {
                offset: session.position,
                length: if count <= left {
                    count
                } else {
                    left
                },
            }
        },
        Command::Config(_) => Action::Nothing,
        Command::Help(help) => Action::Explain(help),
        Command::Exit => Action::Exit,
        Command::Nothing => Action::Nothing,
    }
}

} // verus!
