//! The sector map: an ordered collection of segments. Whatever lies between
//! segments, before the first or after the last is not stored, and counts as
//! empty.

use crate::codec::{
    be_bytes, be_value, decode, decode_spec, encode_spec, encoded_len, lemma_be_bytes_len,
    lemma_be_bytes_of_value, lemma_be_value_of_bytes, lemma_decode_encoded_prefix, pow256, read_be, SectorAddress,
    MAX_ADDRESS,
};
use crate::error::IndexError;
use crate::math_util::ceil_div;
use crate::segment::{bit_of, Segment, SegmentView, EOF_SENTINEL, MAX_BITMAP_LEN};
use vstd::prelude::*;
use vstd::slice::{slice_subrange, slice_to_vec};

verus! {

/// Segments are ordered by strictly increasing start address, no two of them
/// overlap, and only the last may extend to the end of the device.
pub open spec fn segments_wf(segs: Seq<SegmentView>) -> bool {
    &&& forall|i: int| 0 <= i < segs.len() ==> (#[trigger] segs[i]).wf()
    &&& forall|i: int| 0 <= i < segs.len() - 1 ==> !(#[trigger] segs[i]).to_eof
    &&& forall|i: int, j: int|
        0 <= i < j < segs.len() ==> (#[trigger] segs[i]).start < (#[trigger] segs[j]).start
            && segs[i].end() <= segs[j].start
}

/// Whether the sector at `addr` is occupied according to `segs`: some segment
/// records it with a set bit.
pub open spec fn occupied(segs: Seq<SegmentView>, addr: int) -> bool {
    exists|i: int|
        0 <= i < segs.len() && (#[trigger] segs[i]).covers(addr) && segs[i].bit(
            addr - segs[i].start,
        )
}

/// Whether no sector in `[low, high)` is occupied.
pub open spec fn clear_between(segs: Seq<SegmentView>, low: int, high: int) -> bool {
    forall|addr: int| low <= addr < high ==> !occupied(segs, addr)
}

/// Whether no sector at or after `low` is occupied.
pub open spec fn clear_from(segs: Seq<SegmentView>, low: int) -> bool {
    forall|addr: int| low <= addr ==> !occupied(segs, addr)
}

/// Whether `answer` is the first occupied sector at or after `from`, or
/// `None` for want of one.
pub open spec fn is_next_occupied(segs: Seq<SegmentView>, from: int, answer: Option<int>) -> bool {
    match answer {
        Some(addr) => from <= addr && occupied(segs, addr) && clear_between(segs, from, addr),
        None => clear_from(segs, from),
    }
}

/// Address past which nothing is recorded: the end of the last segment.
pub open spec fn extent(segs: Seq<SegmentView>) -> int {
    if segs.len() == 0 {
        0
    } else {
        segs.last().end()
    }
}

/// Every occupied sector lies before the end of the last segment, so from
/// there on the answer is `None`.
pub proof fn lemma_occupied_within_extent(segs: Seq<SegmentView>, addr: int)
    requires
        segments_wf(segs),
    ensures
        occupied(segs, addr) ==> 0 <= addr < extent(segs),
        extent(segs) <= addr ==> is_next_occupied(segs, addr, None),
{
    assert forall|i: int, other: int|
        0 <= i < segs.len() && #[trigger] segs[i].covers(other) implies 0 <= other < extent(
        segs,
    ) by {
        let n = segs.len() - 1;
        if i < n {
            assert(segs[i].end() <= segs[n].start);
        }
    }
}

/// Asked again from behind its last answer, `next_occupied` gives a later
/// address; the answers lie before the end of the last segment, so after
/// finitely many of them the answer is `None`.
pub proof fn lemma_next_occupied_advances(
    segs: Seq<SegmentView>,
    from: int,
    first: int,
    again: Option<int>,
)
    requires
        segments_wf(segs),
        is_next_occupied(segs, from, Some(first)),
        is_next_occupied(segs, first + 1, again),
    ensures
        from <= first < extent(segs),
        again matches Some(second) ==> first < second < extent(segs),
        extent(segs) - (first + 1) < extent(segs) - from,
{
    lemma_occupied_within_extent(segs, first);
    if let Some(second) = again {
        lemma_occupied_within_extent(segs, second);
    }
}

/// The first occupied sector among those from `from` up to, but not
/// including, `limit`.
pub open spec fn least_occupied(segs: Seq<SegmentView>, from: int, limit: int) -> Option<int>
    decreases limit - from,
{
    if from >= limit {
        None
    } else if occupied(segs, from) {
        Some(from)
    } else {
        least_occupied(segs, from + 1, limit)
    }
}

/// Number of occupied sectors from `from` up to, but not including, `limit`.
pub open spec fn occupied_count(segs: Seq<SegmentView>, from: int, limit: int) -> nat
    decreases limit - from,
{
    if from >= limit {
        0
    } else if occupied(segs, from) {
        1 + occupied_count(segs, from + 1, limit)
    } else {
        occupied_count(segs, from + 1, limit)
    }
}

/// The answers of `next_occupied` when it is asked from `from`, and then
/// again and again from behind its last answer, until it answers `None`.
pub open spec fn answers(segs: Seq<SegmentView>, from: int) -> Seq<int>
    decreases extent(segs) - from,
    via answers_decreases
{
    match least_occupied(segs, from, extent(segs)) {
        None => Seq::empty(),
        Some(addr) => seq![addr] + answers(segs, addr + 1),
    }
}

#[via_fn]
proof fn answers_decreases(segs: Seq<SegmentView>, from: int) {
    lemma_least_occupied(segs, from, extent(segs));
}

/// The first occupied sector of a range is occupied and lies in the range,
/// and none before it is occupied; if there is none, the range is clear.
pub proof fn lemma_least_occupied(segs: Seq<SegmentView>, from: int, limit: int)
    ensures
        match least_occupied(segs, from, limit) {
            Some(addr) => from <= addr < limit && occupied(segs, addr) && clear_between(
                segs,
                from,
                addr,
            ),
            None => clear_between(segs, from, limit),
        },
    decreases limit - from,
{
    if from < limit && !occupied(segs, from) {
        lemma_least_occupied(segs, from + 1, limit);
    }
}

/// What `next_occupied` answers is the first occupied sector before the end
/// of the last segment, and `None` exactly when no sector at or after the
/// start is occupied.
pub proof fn lemma_next_occupied_is_least(segs: Seq<SegmentView>, from: int, answer: Option<int>)
    requires
        segments_wf(segs),
        is_next_occupied(segs, from, answer),
    ensures
        answer == least_occupied(segs, from, extent(segs)),
        answer is None <==> clear_from(segs, from),
{
    lemma_least_occupied(segs, from, extent(segs));
    match least_occupied(segs, from, extent(segs)) {
        Some(least) => {
            assert(occupied(segs, least));
            if let Some(addr) = answer {
                if addr < least {
                    assert(!occupied(segs, addr));
                }
                if least < addr {
                    assert(!occupied(segs, least));
                }
            }
        },
        None => {
            if let Some(addr) = answer {
                lemma_occupied_within_extent(segs, addr);
                assert(!occupied(segs, addr));
            }
        },
    }
    if let Some(addr) = answer {
        assert(occupied(segs, addr));
    }
}

/// Clear sectors at the front of a range do not count.
pub proof fn lemma_count_skips_clear(segs: Seq<SegmentView>, from: int, mid: int, limit: int)
    requires
        from <= mid <= limit,
        clear_between(segs, from, mid),
    ensures
        occupied_count(segs, from, limit) == occupied_count(segs, mid, limit),
    decreases mid - from,
{
    if from < mid {
        assert(!occupied(segs, from));
        lemma_count_skips_clear(segs, from + 1, mid, limit);
    }
}

/// Asked again and again from behind its last answer, `next_occupied` gives
/// every occupied sector at or after the start once, in increasing order:
/// it answers as often as there are such sectors, and then `None`.
pub proof fn lemma_answers(segs: Seq<SegmentView>, from: int)
    requires
        segments_wf(segs),
    ensures
        answers(segs, from).len() == occupied_count(segs, from, extent(segs)),
        forall|k: int|
            0 <= k < answers(segs, from).len() ==> from <= #[trigger] answers(segs, from)[k]
                && occupied(segs, answers(segs, from)[k]),
        forall|k: int|
            0 < k < answers(segs, from).len() ==> is_next_occupied(
                segs,
                answers(segs, from)[k - 1] + 1,
                Some(#[trigger] answers(segs, from)[k]),
            ),
        answers(segs, from).len() > 0 ==> is_next_occupied(
            segs,
            from,
            Some(answers(segs, from)[0]),
        ),
        is_next_occupied(
            segs,
            if answers(segs, from).len() > 0 {
                answers(segs, from).last() + 1
            } else {
                from
            },
            None,
        ),
    decreases extent(segs) - from,
{
    let limit = extent(segs);
    lemma_least_occupied(segs, from, limit);
    match least_occupied(segs, from, limit) {
        None => {
            if from <= limit {
                lemma_count_skips_clear(segs, from, limit, limit);
            }
            assert forall|addr: int| from <= addr implies !occupied(segs, addr) by {
                lemma_occupied_within_extent(segs, addr);
            }
        },
        Some(addr) => {
            let rest = answers(segs, addr + 1);
            let all = answers(segs, from);
            lemma_answers(segs, addr + 1);
            lemma_count_skips_clear(segs, from, addr, limit);
            assert(all =~= seq![addr] + rest);
            assert(all.len() == rest.len() + 1);
            assert forall|k: int| 0 <= k < all.len() implies from <= #[trigger] all[k] && occupied(
                segs,
                all[k],
            ) by {
                if k > 0 {
                    assert(all[k] == rest[k - 1]);
                }
            }
            assert forall|k: int| 0 < k < all.len() implies is_next_occupied(
                segs,
                all[k - 1] + 1,
                Some(#[trigger] all[k]),
            ) by {
                assert(all[k] == rest[k - 1]);
                if k > 1 {
                    assert(all[k - 1] == rest[k - 2]);
                }
            }
            if rest.len() > 0 {
                assert(all.last() == rest.last());
            }
        },
    }
}

/// An address that no segment records is empty.
pub proof fn lemma_gap_is_empty(segs: Seq<SegmentView>, addr: int)
    requires
        forall|i: int| 0 <= i < segs.len() ==> !(#[trigger] segs[i]).covers(addr),
    ensures
        !occupied(segs, addr),
{
}

/// Start addresses increase strictly, and a segment ends before the next
/// begins.
pub proof fn lemma_monotonic(segs: Seq<SegmentView>, i: int, j: int)
    requires
        segments_wf(segs),
        0 <= i < j < segs.len(),
    ensures
        segs[i].start < segs[j].start,
        segs[i].end() <= segs[j].start,
        forall|addr: int| !(segs[i].covers(addr) && segs[j].covers(addr)),
{
}

/// The only segment that can record `addr` is the last one that starts at or
/// before it.
pub proof fn lemma_owner(segs: Seq<SegmentView>, k: int, addr: int)
    requires
        segments_wf(segs),
        0 <= k < segs.len(),
        segs[k].start <= addr,
        k + 1 < segs.len() ==> addr < segs[k + 1].start,
    ensures
        occupied(segs, addr) == (segs[k].covers(addr) && segs[k].bit(addr - segs[k].start)),
{
    assert forall|i: int| 0 <= i < segs.len() && i != k implies !(#[trigger] segs[i]).covers(
        addr,
    ) by {
        if i < k {
            assert(segs[i].end() <= segs[k].start);
        } else {
            if i > k + 1 {
                assert(segs[k + 1].start < segs[i].start);
            }
        }
    }
}

/// Nothing is recorded before the first segment.
pub proof fn lemma_before_first(segs: Seq<SegmentView>, addr: int)
    requires
        segments_wf(segs),
        segs.len() > 0 ==> addr < segs[0].start,
    ensures
        !occupied(segs, addr),
{
    assert forall|i: int| 0 <= i < segs.len() implies !(#[trigger] segs[i]).covers(addr) by {
        if i > 0 {
            assert(segs[0].start < segs[i].start);
        }
    }
}

/// Number of the segments of `segs` that start at or before `addr`; in a
/// map in order they are the first ones, so this is the place of a segment
/// that starts at `addr`.
pub open spec fn rank(segs: Seq<SegmentView>, addr: int) -> int
    decreases segs.len(),
{
    if segs.len() == 0 {
        0
    } else if segs.last().start <= addr {
        segs.len() as int
    } else {
        rank(segs.drop_last(), addr)
    }
}

/// The segments before the place of `addr` start at or before it, the others
/// after it.
pub proof fn lemma_rank(segs: Seq<SegmentView>, addr: int)
    requires
        segments_wf(segs),
    ensures
        0 <= rank(segs, addr) <= segs.len(),
        forall|i: int| 0 <= i < rank(segs, addr) ==> (#[trigger] segs[i]).start <= addr,
        forall|i: int| rank(segs, addr) <= i < segs.len() ==> (#[trigger] segs[i]).start > addr,
    decreases segs.len(),
{
    if segs.len() > 0 {
        let n = segs.len() - 1;
        if segs.last().start <= addr {
            assert forall|i: int| 0 <= i < segs.len() implies (#[trigger] segs[i]).start
                <= addr by {
                if i < n {
                    assert(segs[i].start < segs[n].start);
                }
            }
        } else {
            let front = segs.drop_last();
            assert forall|i: int, j: int| 0 <= i < j < front.len() implies (
            #[trigger] front[i]).start < (#[trigger] front[j]).start && front[i].end()
                <= front[j].start by {
                assert(front[i] == segs[i] && front[j] == segs[j]);
            }
            assert forall|i: int| 0 <= i < front.len() implies (#[trigger] front[i]).wf() by {
                assert(front[i] == segs[i]);
            }
            assert forall|i: int| 0 <= i < front.len() - 1 implies !(
            #[trigger] front[i]).to_eof by {
                assert(front[i] == segs[i]);
            }
            lemma_rank(front, addr);
            assert forall|i: int| 0 <= i < rank(segs, addr) implies (#[trigger] segs[i]).start
                <= addr by {
                assert(front[i] == segs[i]);
            }
            assert forall|i: int| rank(segs, addr) <= i < segs.len() implies (
            #[trigger] segs[i]).start > addr by {
                if i < n {
                    assert(front[i] == segs[i]);
                }
            }
        }
    }
}

/// Whether `seg` can be put into `segs` at its place: it lies after the
/// segment before that place and before the segment at it, and a segment
/// that extends to the end of the device has none after it.
pub open spec fn can_insert(segs: Seq<SegmentView>, seg: SegmentView) -> bool {
    let at = rank(segs, seg.start);
    &&& at > 0 ==> !segs[at - 1].to_eof && segs[at - 1].next_floor() <= seg.start
    &&& at < segs.len() ==> !seg.to_eof && seg.next_floor() <= segs[at].start
}

/// `segs` with `seg` put in at its place. A segment that starts exactly
/// where the one before it ends is joined onto that one, so that no two
/// stored segments are adjacent without need.
pub open spec fn inserted(segs: Seq<SegmentView>, seg: SegmentView) -> Seq<SegmentView> {
    let at = rank(segs, seg.start);
    if at > 0 && segs[at - 1].joins(seg) {
        segs.update(at - 1, segs[at - 1].joined(seg))
    } else {
        segs.insert(at, seg)
    }
}

/// Whether `seg` may follow the segments of `segs`: it starts after
/// everything they record, and none of them extends to the end of the device.
pub open spec fn can_append(segs: Seq<SegmentView>, seg: SegmentView) -> bool {
    segs.len() > 0 ==> !segs.last().to_eof && segs.last().next_floor() <= seg.start
}

/// `segs` with `seg` behind them, joined onto the last segment if it starts
/// exactly where that one ends.
pub open spec fn appended(segs: Seq<SegmentView>, seg: SegmentView) -> Seq<SegmentView> {
    if segs.len() > 0 && segs.last().joins(seg) {
        segs.drop_last().push(segs.last().joined(seg))
    } else {
        segs.push(seg)
    }
}

/// Joining two segments keeps every recorded bit.
pub proof fn lemma_joined(first: SegmentView, next: SegmentView)
    requires
        first.wf(),
        next.wf(),
        first.joins(next),
    ensures
        first.joined(next).wf(),
        forall|addr: int| #[trigger]
            first.joined(next).covers(addr) == (first.covers(addr) || next.covers(addr)),
        forall|addr: int|
            first.covers(addr) ==> #[trigger] first.joined(next).bit(addr - first.start)
                == first.bit(addr - first.start),
        forall|addr: int|
            next.covers(addr) ==> #[trigger] first.joined(next).bit(addr - first.start)
                == next.bit(addr - next.start),
{
    let both = first.joined(next);
    assert forall|addr: int| first.covers(addr) implies #[trigger] both.bit(addr - first.start)
        == first.bit(addr - first.start) by {
        let i = addr - first.start;
        assert(both.bitmap[i / 8] == first.bitmap[i / 8]);
    }
    assert forall|addr: int| next.covers(addr) implies #[trigger] both.bit(addr - first.start)
        == next.bit(addr - next.start) by {
        let i = addr - first.start;
        let j = addr - next.start;
        assert(i == j + 8 * first.bitmap.len());
        assert(i / 8 == j / 8 + first.bitmap.len());
        assert(i % 8 == j % 8);
        assert(both.bitmap[i / 8] == next.bitmap[j / 8]);
    }
}

/// Joining `seg` onto the segment before its place keeps the map in order.
proof fn lemma_joined_in_order(segs: Seq<SegmentView>, seg: SegmentView, at: int)
    requires
        segments_wf(segs),
        seg.wf(),
        0 < at <= segs.len(),
        segs[at - 1].joins(seg),
        at < segs.len() ==> !seg.to_eof && seg.next_floor() <= segs[at].start,
    ensures
        segments_wf(segs.update(at - 1, segs[at - 1].joined(seg))),
{
    let prev = segs[at - 1];
    let both = prev.joined(seg);
    let after = segs.update(at - 1, both);
    lemma_joined(prev, seg);
    assert(prev.wf());
    assert forall|i: int, j: int| 0 <= i < j < after.len() implies (#[trigger] after[i]).start < (
    #[trigger] after[j]).start && after[i].end() <= after[j].start by {
        assert(segs[i].start < segs[j].start && segs[i].end() <= segs[j].start);
        if i == at - 1 && j > at {
            assert(segs[at].start < segs[j].start);
        }
    }
    assert forall|i: int| 0 <= i < after.len() implies (#[trigger] after[i]).wf() by {
        if i != at - 1 {
            assert(segs[i].wf());
        }
    }
    assert forall|i: int| 0 <= i < after.len() - 1 implies !(#[trigger] after[i]).to_eof by {
        if i != at - 1 {
            assert(!segs[i].to_eof);
        }
    }
}

/// Joining `seg` onto a segment adds the occupied sectors of `seg`, and no
/// others.
proof fn lemma_joined_occupancy(segs: Seq<SegmentView>, seg: SegmentView, at: int, addr: int)
    requires
        0 < at <= segs.len(),
        segs[at - 1].wf(),
        seg.wf(),
        segs[at - 1].joins(seg),
    ensures
        occupied(segs.update(at - 1, segs[at - 1].joined(seg)), addr) == (occupied(segs, addr) || (
        seg.covers(addr) && seg.bit(addr - seg.start))),
{
    let prev = segs[at - 1];
    let both = prev.joined(seg);
    let after = segs.update(at - 1, both);
    lemma_joined(prev, seg);
    assert(both.covers(addr) == (prev.covers(addr) || seg.covers(addr)));
    if prev.covers(addr) {
        assert(both.bit(addr - prev.start) == prev.bit(addr - prev.start));
    }
    if seg.covers(addr) {
        assert(both.bit(addr - prev.start) == seg.bit(addr - seg.start));
    }
    if occupied(after, addr) {
        let i = choose|i: int|
            0 <= i < after.len() && (#[trigger] after[i]).covers(addr) && after[i].bit(
                addr - after[i].start,
            );
        if i != at - 1 {
            assert(segs[i].covers(addr) && segs[i].bit(addr - segs[i].start));
        } else if prev.covers(addr) {
            assert(segs[at - 1].covers(addr) && segs[at - 1].bit(addr - segs[at - 1].start));
        }
    }
    if occupied(segs, addr) {
        let i = choose|i: int|
            0 <= i < segs.len() && (#[trigger] segs[i]).covers(addr) && segs[i].bit(
                addr - segs[i].start,
            );
        if i != at - 1 {
            assert(after[i].covers(addr) && after[i].bit(addr - after[i].start));
        } else {
            assert(after[at - 1].covers(addr) && after[at - 1].bit(addr - after[at - 1].start));
        }
    }
    if seg.covers(addr) && seg.bit(addr - seg.start) {
        assert(after[at - 1].covers(addr) && after[at - 1].bit(addr - after[at - 1].start));
    }
}

/// What stands where once `seg` is put in at `at`.
proof fn lemma_insert_places(segs: Seq<SegmentView>, seg: SegmentView, at: int)
    requires
        0 <= at <= segs.len(),
    ensures
        segs.insert(at, seg).len() == segs.len() + 1,
        segs.insert(at, seg)[at] == seg,
        forall|i: int| 0 <= i < at ==> #[trigger] segs.insert(at, seg)[i] == segs[i],
        forall|i: int| at < i <= segs.len() ==> #[trigger] segs.insert(at, seg)[i] == segs[i - 1],
{
    segs.insert_ensures(at, seg);
}

/// Putting `seg` in between its neighbours keeps the map in order.
proof fn lemma_put_in_order(segs: Seq<SegmentView>, seg: SegmentView, at: int)
    requires
        segments_wf(segs),
        seg.wf(),
        0 <= at <= segs.len(),
        at > 0 ==> !segs[at - 1].to_eof && segs[at - 1].next_floor() <= seg.start,
        at < segs.len() ==> !seg.to_eof && seg.next_floor() <= segs[at].start,
    ensures
        segments_wf(segs.insert(at, seg)),
{
    let after = segs.insert(at, seg);
    lemma_insert_places(segs, seg, at);
    if at > 0 {
        assert(segs[at - 1].wf());
    }
    if at < segs.len() {
        assert(segs[at].wf());
    }
    assert forall|i: int, j: int| 0 <= i < j < after.len() implies (#[trigger] after[i]).start < (
    #[trigger] after[j]).start && after[i].end() <= after[j].start by {
        if j < at {
            assert(segs[i].start < segs[j].start && segs[i].end() <= segs[j].start);
        } else if j == at {
            if i < at - 1 {
                assert(segs[i].start < segs[at - 1].start && segs[i].end() <= segs[at - 1].start);
            }
        } else if i < at {
            assert(segs[i].start < segs[j - 1].start && segs[i].end() <= segs[j - 1].start);
        } else if i == at {
            if j - 1 > at {
                assert(segs[at].start < segs[j - 1].start);
            }
        } else {
            assert(segs[i - 1].start < segs[j - 1].start && segs[i - 1].end() <= segs[j
                - 1].start);
        }
    }
    assert forall|i: int| 0 <= i < after.len() implies (#[trigger] after[i]).wf() by {
        if i < at {
            assert(segs[i].wf());
        } else if i > at {
            assert(segs[i - 1].wf());
        }
    }
    assert forall|i: int| 0 <= i < after.len() - 1 implies !(#[trigger] after[i]).to_eof by {
        if i < at {
            assert(!segs[i].to_eof);
        } else if i > at {
            assert(!segs[i - 1].to_eof);
        }
    }
}

/// Putting `seg` in adds the occupied sectors of `seg`, and no others.
proof fn lemma_put_in_occupancy(segs: Seq<SegmentView>, seg: SegmentView, at: int, addr: int)
    requires
        0 <= at <= segs.len(),
    ensures
        occupied(segs.insert(at, seg), addr) == (occupied(segs, addr) || (seg.covers(addr)
            && seg.bit(addr - seg.start))),
{
    let after = segs.insert(at, seg);
    lemma_insert_places(segs, seg, at);
    if occupied(after, addr) {
        let i = choose|i: int|
            0 <= i < after.len() && (#[trigger] after[i]).covers(addr) && after[i].bit(
                addr - after[i].start,
            );
        if i < at {
            assert(segs[i].covers(addr) && segs[i].bit(addr - segs[i].start));
        } else if i > at {
            assert(segs[i - 1].covers(addr) && segs[i - 1].bit(addr - segs[i - 1].start));
        }
    }
    if occupied(segs, addr) {
        let i = choose|i: int|
            0 <= i < segs.len() && (#[trigger] segs[i]).covers(addr) && segs[i].bit(
                addr - segs[i].start,
            );
        if i < at {
            assert(after[i].covers(addr) && after[i].bit(addr - after[i].start));
        } else {
            assert(after[i + 1] == segs[i]);
            assert(after[i + 1].covers(addr) && after[i + 1].bit(addr - after[i + 1].start));
        }
    }
    if seg.covers(addr) && seg.bit(addr - seg.start) {
        assert(after[at].covers(addr) && after[at].bit(addr - after[at].start));
    }
}

/// Putting a segment in at its place keeps the map in order, and changes
/// the occupancy of those sectors only that the new segment records.
pub proof fn lemma_inserted(segs: Seq<SegmentView>, seg: SegmentView)
    requires
        segments_wf(segs),
        seg.wf(),
        can_insert(segs, seg),
    ensures
        segments_wf(inserted(segs, seg)),
        forall|addr: int| #[trigger]
            occupied(inserted(segs, seg), addr) == (occupied(segs, addr) || (seg.covers(addr)
                && seg.bit(addr - seg.start))),
{
    let at = rank(segs, seg.start);
    lemma_rank(segs, seg.start);
    if at > 0 && segs[at - 1].joins(seg) {
        lemma_joined_in_order(segs, seg, at);
        assert(segs[at - 1].wf());
        assert forall|addr: int| #[trigger]
            occupied(inserted(segs, seg), addr) == (occupied(segs, addr) || (seg.covers(addr)
                && seg.bit(addr - seg.start))) by {
            lemma_joined_occupancy(segs, seg, at, addr);
        }
    } else {
        lemma_put_in_order(segs, seg, at);
        assert forall|addr: int| #[trigger]
            occupied(inserted(segs, seg), addr) == (occupied(segs, addr) || (seg.covers(addr)
                && seg.bit(addr - seg.start))) by {
            lemma_put_in_occupancy(segs, seg, at, addr);
        }
    }
}

/// A segment that follows everything in the map has its place at the end.
pub proof fn lemma_append_is_insert(segs: Seq<SegmentView>, seg: SegmentView)
    requires
        segments_wf(segs),
        can_append(segs, seg),
    ensures
        can_insert(segs, seg),
        inserted(segs, seg) == appended(segs, seg),
{
    if segs.len() > 0 {
        assert(segs.last().wf());
        assert(rank(segs, seg.start) == segs.len());
        if segs.last().joins(seg) {
            assert(segs.update(segs.len() - 1, segs.last().joined(seg)) =~= segs.drop_last().push(
                segs.last().joined(seg),
            ));
        } else {
            assert(segs.insert(segs.len() as int, seg) =~= segs.push(seg));
        }
    } else {
        assert(segs.insert(0, seg) =~= segs.push(seg));
    }
}

/// Appending keeps the map in order, and changes the occupancy of those
/// sectors only that the new segment records.
pub proof fn lemma_appended(segs: Seq<SegmentView>, seg: SegmentView)
    requires
        segments_wf(segs),
        seg.wf(),
        can_append(segs, seg),
    ensures
        segments_wf(appended(segs, seg)),
        forall|addr: int| #[trigger]
            occupied(appended(segs, seg), addr) == (occupied(segs, addr) || (seg.covers(addr)
                && seg.bit(addr - seg.start))),
{
    lemma_append_is_insert(segs, seg);
    lemma_inserted(segs, seg);
}

/// Whether every start address of `segs` can be written as a compressed
/// address.
pub open spec fn encodable(segs: Seq<SegmentView>) -> bool {
    forall|i: int| 0 <= i < segs.len() ==> (#[trigger] segs[i]).start <= MAX_ADDRESS
}

/// The persisted index: the records of the segments one after the other, with
/// nothing before, between or after them.
pub open spec fn index_bytes(segs: Seq<SegmentView>) -> Seq<u8>
    decreases segs.len(),
{
    if segs.len() == 0 {
        Seq::empty()
    } else {
        segs[0].record_bytes() + index_bytes(segs.drop_first())
    }
}

/// The segment whose record stands at the front of `bytes`, and the number of
/// bytes that the record takes. A terminal record takes all that is left,
/// which must be exactly the bitmap of the sectors up to the end of a device
/// of `device_sectors` sectors. `None` when the bytes end within the record.
pub open spec fn parse_record(bytes: Seq<u8>, device_sectors: int) -> Option<(SegmentView, int)> {
    match decode_spec(bytes) {
        None => None,
        Some((start, used)) => {
            let body = used as int + 3;
            if bytes.len() < body {
                None
            } else {
                let field = be_value(bytes.subrange(used as int, body)) as int;
                if field == EOF_SENTINEL {
                    if start > device_sectors || bytes.len() - body != ceil_div(
                        device_sectors - start,
                        8,
                    ) {
                        None
                    } else {
                        Some(
                            (
                                SegmentView {
                                    start: start as int,
                                    bit_count: device_sectors - start,
                                    bitmap: bytes.subrange(body, bytes.len() as int),
                                    to_eof: true,
                                },
                                bytes.len() as int,
                            ),
                        )
                    }
                } else if bytes.len() < body + field {
                    None
                } else {
                    Some(
                        (
                            SegmentView {
                                start: start as int,
                                bit_count: 8 * field,
                                bitmap: bytes.subrange(body, body + field),
                                to_eof: false,
                            },
                            body + field,
                        ),
                    )
                }
            }
        },
    }
}

/// The segments that `bytes` holds, record after record until the bytes end;
/// `bytes` stands at `offset` in the persisted index, and no segment may
/// start before `floor`. The error is the offset of the first record that is
/// cut short, starts too early, or claims to be terminal without being last.
pub open spec fn parse_index(bytes: Seq<u8>, offset: int, floor: int, device_sectors: int)
    -> Result<Seq<SegmentView>, int>
    decreases bytes.len(),
    via parse_index_decreases
{
    if bytes.len() == 0 {
        Ok(Seq::empty())
    } else {
        match parse_record(bytes, device_sectors) {
            None => Err(offset),
            Some((seg, used)) => {
                if seg.start < floor {
                    Err(offset)
                } else {
                    match parse_index(
                        bytes.subrange(used, bytes.len() as int),
                        offset + used,
                        seg.next_floor(),
                        device_sectors,
                    ) {
                        Ok(rest) => Ok(seq![seg] + rest),
                        Err(at) => Err(at),
                    }
                }
            },
        }
    }
}

#[via_fn]
proof fn parse_index_decreases(bytes: Seq<u8>, offset: int, floor: int, device_sectors: int) {
    lemma_record_len(bytes, device_sectors);
}

/// A record takes at least seven bytes, and no more than there are.
pub proof fn lemma_record_len(bytes: Seq<u8>, device_sectors: int)
    ensures
        parse_record(bytes, device_sectors) matches Some((seg, used)) ==> 7 <= used <= bytes.len(),
{
}

/// `segs` put before what parsing the rest of the index gave.
pub open spec fn prepend(segs: Seq<SegmentView>, rest: Result<Seq<SegmentView>, int>) -> Result<
    Seq<SegmentView>,
    int,
> {
    match rest {
        Ok(more) => Ok(segs + more),
        Err(at) => Err(at),
    }
}

/// Whether the terminal segment of `segs`, if there is one, ends where a
/// device of `device_sectors` sectors ends.
pub open spec fn fits_device(segs: Seq<SegmentView>, device_sectors: int) -> bool {
    segs.len() > 0 && segs.last().to_eof ==> segs.last().end() == device_sectors
}

/// The persisted index of `segs` and one more segment.
pub proof fn lemma_index_bytes_push(segs: Seq<SegmentView>, seg: SegmentView)
    ensures
        index_bytes(segs.push(seg)) == index_bytes(segs) + seg.record_bytes(),
    decreases segs.len(),
{
    let all = segs.push(seg);
    if segs.len() == 0 {
        assert(all.drop_first() =~= Seq::<SegmentView>::empty());
        assert(index_bytes(all.drop_first()) =~= Seq::<u8>::empty());
        assert(index_bytes(all) =~= index_bytes(segs) + seg.record_bytes());
    } else {
        lemma_index_bytes_push(segs.drop_first(), seg);
        assert(all.drop_first() =~= segs.drop_first().push(seg));
        assert(index_bytes(all) =~= index_bytes(segs) + seg.record_bytes());
    }
}

/// A segment's record followed by anything parses to the segment; a terminal
/// segment's record must come last.
pub proof fn lemma_parse_record(seg: SegmentView, tail: Seq<u8>, device_sectors: int)
    requires
        seg.wf(),
        seg.start <= MAX_ADDRESS,
        seg.to_eof ==> tail.len() == 0 && seg.end() == device_sectors,
    ensures
        parse_record(seg.record_bytes() + tail, device_sectors) == Some(
            (seg, seg.record_bytes().len() as int),
        ),
        seg.record_bytes().len() >= 7,
{
    let start = seg.start as u64;
    let address = encode_spec(start);
    let field = be_bytes(seg.length_field(), 3);
    let record = seg.record_bytes();
    let bytes = record + tail;
    let used = encoded_len(start) as int;
    let body = used + 3;
    lemma_be_bytes_len(seg.length_field(), 3);
    assert(pow256(3) == 0x100_0000) by {
        reveal_with_fuel(pow256, 4);
    }
    lemma_be_value_of_bytes(seg.length_field(), 3);
    lemma_decode_encoded_prefix(start, field + seg.bitmap + tail);
    assert(bytes =~= address + (field + seg.bitmap + tail));
    assert(bytes.subrange(used, body) =~= field);
    if seg.to_eof {
        assert(bytes.subrange(body, bytes.len() as int) =~= seg.bitmap);
    } else {
        assert(bytes.subrange(body, body + seg.bitmap.len()) =~= seg.bitmap);
    }
}

/// Reading a persisted index gives back the segments that were written.
pub proof fn lemma_parse_index_bytes(
    segs: Seq<SegmentView>,
    offset: int,
    floor: int,
    device_sectors: int,
)
    requires
        segments_wf(segs),
        encodable(segs),
        fits_device(segs, device_sectors),
        segs.len() > 0 ==> floor <= segs[0].start,
    ensures
        parse_index(index_bytes(segs), offset, floor, device_sectors) == Ok::<
            Seq<SegmentView>,
            int,
        >(segs),
    decreases segs.len(),
{
    if segs.len() > 0 {
        let seg = segs[0];
        let rest = segs.drop_first();
        let tail = index_bytes(rest);
        let bytes = index_bytes(segs);
        let used = seg.record_bytes().len() as int;
        assert(seg.wf());
        if seg.to_eof {
            assert(segs.len() == 1);
            assert(rest =~= Seq::<SegmentView>::empty());
            assert(tail =~= Seq::<u8>::empty());
        }
        lemma_parse_record(seg, tail, device_sectors);
        assert forall|i: int, j: int| 0 <= i < j < rest.len() implies (#[trigger] rest[i]).start
            < (#[trigger] rest[j]).start && rest[i].end() <= rest[j].start by {
            assert(rest[i] == segs[i + 1] && rest[j] == segs[j + 1]);
        }
        assert forall|i: int| 0 <= i < rest.len() implies (#[trigger] rest[i]).wf() by {
            assert(rest[i] == segs[i + 1]);
        }
        assert forall|i: int| 0 <= i < rest.len() - 1 implies !(#[trigger] rest[i]).to_eof by {
            assert(rest[i] == segs[i + 1]);
        }
        assert forall|i: int| 0 <= i < rest.len() implies (#[trigger] rest[i]).start
            <= MAX_ADDRESS by {
            assert(rest[i] == segs[i + 1]);
        }
        if rest.len() > 0 {
            assert(rest.last() == segs.last());
            assert(rest[0] == segs[1]);
            assert(segs[0].start < segs[1].start && segs[0].end() <= segs[1].start);
        }
        lemma_parse_index_bytes(rest, offset + used, seg.next_floor(), device_sectors);
        assert(bytes == seg.record_bytes() + tail);
        assert(bytes.subrange(used, bytes.len() as int) =~= tail);
        assert(seq![seg] + rest =~= segs);
    } else {
        assert(segs =~= Seq::<SegmentView>::empty());
    }
}

/// A segment that starts after everything in `segs` can stand behind them as
/// it is.
proof fn lemma_appended_plain(segs: Seq<SegmentView>, seg: SegmentView)
    requires
        segments_wf(segs),
        seg.wf(),
        can_append(segs, seg),
    ensures
        segments_wf(segs.push(seg)),
{
    let after = segs.push(seg);
    let n = segs.len() as int;
    assert forall|i: int, j: int| 0 <= i < j < after.len() implies (#[trigger] after[i]).start < (
    #[trigger] after[j]).start && after[i].end() <= after[j].start by {
        if j < n {
            assert(after[i] == segs[i] && after[j] == segs[j]);
        } else {
            assert(after[i] == segs[i]);
            if i < n - 1 {
                assert(segs[i].start < segs[n - 1].start && segs[i].end() <= segs[n - 1].start);
            }
        }
    }
    assert forall|i: int| 0 <= i < after.len() implies (#[trigger] after[i]).wf() by {
        if i < n {
            assert(after[i] == segs[i]);
        }
    }
    assert forall|i: int| 0 <= i < after.len() - 1 implies !(#[trigger] after[i]).to_eof by {
        assert(after[i] == segs[i]);
    }
}

/// Reading the persisted index of a map gives the map back.
pub proof fn lemma_serialization_round_trip(segs: Seq<SegmentView>, device_sectors: int)
    requires
        segments_wf(segs),
        encodable(segs),
        fits_device(segs, device_sectors),
    ensures
        parse_index(index_bytes(segs), 0, 0, device_sectors) == Ok::<Seq<SegmentView>, int>(segs),
{
    if segs.len() > 0 {
        assert(segs[0].wf());
    }
    lemma_parse_index_bytes(segs, 0, 0, device_sectors);
}

proof fn lemma_zero_byte(byte: u8, k: u8)
    requires
        byte == 0,
        k < 8,
    ensures
        !bit_of(byte, k),
{
    assert((byte >> k) & 1u8 != 1u8) by (bit_vector)
        requires
            byte == 0,
            k < 8,
    ;
}

/// Reads the record that stands at `pos` in `bytes`, and says where the next
/// record begins.
fn read_record(bytes: &[u8], pos: usize, device_sectors: u64) -> (result: Option<(Segment, usize)>)
    requires
        pos <= bytes@.len(),
    ensures
        match parse_record(
            bytes@.subrange(pos as int, bytes@.len() as int),
            device_sectors as int,
        ) {
            Some((seg, used)) => result matches Some((read, next)) && read@ == seg && read.wf()
                && next == pos + used && 7 <= used && next <= bytes@.len() && seg.start
                <= MAX_ADDRESS && (seg.to_eof ==> next == bytes@.len()),
            None => result is None,
        },
{
    let total = bytes.len();
    let ghost rest = bytes@.subrange(pos as int, total as int);
    let (start, used) = match decode(slice_subrange(bytes, pos, total)) {
        Ok(decoded) => decoded,
        Err(_) => {
            return None;
        },
    };
    if total - pos < used + 3 {
        return None;
    }
    let body = pos + used + 3;
    let field = read_be(bytes, pos + used, 3);
    assert(bytes@.subrange(pos + used, pos + used + 3) =~= rest.subrange(used as int, used + 3));
    assert(field < 0x100_0000) by {
        lemma_be_bytes_of_value(rest.subrange(used as int, used + 3));
        reveal_with_fuel(pow256, 4);
    }
    if field == EOF_SENTINEL {
        if start > device_sectors {
            return None;
        }
        let left = device_sectors - start;
        let needed: u64 = if left == 0 {
            0
        } else {
            (left - 1) / 8 + 1
        };
        if (total - body) as u64 != needed {
            return None;
        }
        let bitmap = slice_to_vec(slice_subrange(bytes, body, total));
        assert(bytes@.subrange(body as int, total as int) =~= rest.subrange(
            used + 3,
            rest.len() as int,
        ));
        let seg = Segment::to_end(start, bitmap, device_sectors).unwrap();
        Some((seg, total))
    } else {
        if ((total - body) as u64) < field {
            return None;
        }
        let next = body + field as usize;
        let bitmap = slice_to_vec(slice_subrange(bytes, body, next));
        assert(bytes@.subrange(body as int, next as int) =~= rest.subrange(
            used + 3,
            used + 3 + field,
        ));
        let seg = Segment::new(start, bitmap).unwrap();
        Some((seg, next))
    }
}

/// An ordered collection of segments.
#[derive(Debug, Clone, PartialEq, Eq)]
pub struct SectorMap {
    segments: Vec<Segment>,
}

impl View for SectorMap {
    type V = Seq<SegmentView>;

    closed spec fn view(&self) -> Seq<SegmentView> {
        self.segments@.map_values(|seg: Segment| seg@)
    }
}

impl SectorMap {
    /// Well-formedness of the map: its segments are in order and disjoint.
    pub open spec fn wf(&self) -> bool {
        segments_wf(self@)
    }

    /// A map without segments: every sector counts as empty.
    pub fn new() -> (map: SectorMap)
        ensures
            map.wf(),
            map@.len() == 0,
    {
        SectorMap { segments: Vec::new() }
    }

    /// Number of segments.
    pub fn len(&self) -> (len: usize)
        ensures
            len == self@.len(),
    {
        self.segments.len()
    }

    /// The `index`-th segment.
    pub fn segment(&self, index: usize) -> (seg: &Segment)
        requires
            index < self@.len(),
        ensures
            seg@ == self@[index as int],
    {
        &self.segments[index]
    }

    /// Puts a newly scanned segment in at its place among the others. A
    /// segment that starts exactly where the one before it ends is joined
    /// onto that one. A segment that overlaps another, or would stand behind
    /// one that extends to the end of the device, is handed back, and the map
    /// stays as it was.
    pub fn append_segment(&mut self, seg: Segment) -> (result: Result<(), Segment>)
        requires
            old(self).wf(),
            seg.wf(),
        ensures
            final(self).wf(),
            can_insert(old(self)@, seg@) ==> result is Ok && final(self)@ == inserted(
                old(self)@,
                seg@,
            ),
            !can_insert(old(self)@, seg@) ==> result == Err::<(), Segment>(seg) && final(self)@
                == old(self)@,
    {
        let at = self.count_starting_by(seg.start());
        proof {
            let place = rank(self@, seg@.start);
            lemma_rank(self@, seg@.start);
            if at < place {
                assert(self@[at as int].start <= seg@.start);
            }
            if place < at {
                assert(self@[place].start > seg@.start);
            }
        }
        let mut joins = false;
        if at > 0 {
            let prev = &self.segments[at - 1];
            assert(prev@ == self@[at - 1]);
            let too_early = if prev.bit_count() == 0 {
                seg.start() <= prev.start()
            } else {
                seg.start() < prev.end()
            };
            if prev.is_to_eof() || too_early {
                return Err(seg);
            }
            joins = prev.end() == seg.start() && (seg.is_to_eof() || prev.bitmap().len()
                + seg.bitmap().len() <= MAX_BITMAP_LEN);
        }
        if at < self.segments.len() {
            let next = &self.segments[at];
            assert(next@ == self@[at as int]);
            if seg.is_to_eof() || (seg.bit_count() != 0 && next.start() < seg.end()) {
                return Err(seg);
            }
        }
        proof {
            lemma_inserted(self@, seg@);
        }
        if joins {
            let mut joined = self.segments.remove(at - 1);
            joined.absorb(seg);
            self.segments.insert(at - 1, joined);
            assert(self@ =~= inserted(old(self)@, seg@));
        } else {
            self.segments.insert(at, seg);
            assert(self@ =~= inserted(old(self)@, seg@));
        }
        Ok(())
    }

    /// The persisted index: the record of each segment in order, with no
    /// header, count or checksum. Fails on the first segment whose start
    /// address is too large to be written.
    pub fn serialize(&self) -> (result: Result<Vec<u8>, IndexError>)
        requires
            self.wf(),
        ensures
            encodable(self@) ==> (result matches Ok(bytes) && bytes@ == index_bytes(self@)),
            !encodable(self@) ==> (result matches Err(e) && exists|i: int|
                0 <= i < self@.len() && (#[trigger] self@[i]).start > MAX_ADDRESS && e == (
                IndexError::AddressTooLarge { address: self@[i].start as u64 }) && encodable(
                    self@.take(i),
                )),
    {
        let mut out: Vec<u8> = Vec::new();
        let mut i: usize = 0;
        assert(self@.take(0) =~= Seq::<SegmentView>::empty());
        while i < self.segments.len()
            invariant
                self.wf(),
                i <= self@.len(),
                self@.len() == self.segments@.len(),
                encodable(self@.take(i as int)),
                out@ == index_bytes(self@.take(i as int)),
            decreases self@.len() - i,
        {
            let ghost before = self@.take(i as int);
            let seg = &self.segments[i];
            assert(seg@ == self@[i as int]);
            match seg.write_record(&mut out) {
                Ok(()) => {},
                Err(e) => {
                    return Err(e);
                },
            }
            proof {
                lemma_index_bytes_push(before, seg@);
                assert(self@.take(i + 1) =~= before.push(seg@));
            }
            i += 1;
        }
        assert(self@.take(i as int) =~= self@);
        Ok(out)
    }

    /// Reads a persisted index of a device of `device_sectors` sectors. The
    /// index is read record after record until the bytes end, and is rejected
    /// at the first record that is cut short, that does not start after
    /// everything before it, or that claims to extend to the end of the
    /// device without being the last or without holding exactly the bits of
    /// the sectors that are left.
    pub fn deserialize(bytes: &[u8], device_sectors: u64) -> (result: Result<
        SectorMap,
        IndexError,
    >)
        ensures
            match parse_index(bytes@, 0, 0, device_sectors as int) {
                Ok(segs) => result matches Ok(map) && map.wf() && map@ == segs,
                Err(at) => result matches Err(e) && e == (IndexError::CorruptIndex {
                    record_offset: at as usize,
                }) && 0 <= at < bytes@.len(),
            },
    {
        let mut map = SectorMap::new();
        let mut pos: usize = 0;
        let mut floor: u64 = 0;
        let total = bytes.len();
        let ghost device = device_sectors as int;
        assert(bytes@.subrange(0, total as int) =~= bytes@);
        assert(map@ + Seq::<SegmentView>::empty() =~= map@);
        while pos < total
            invariant
                total == bytes@.len(),
                pos <= total,
                device == device_sectors,
                map.wf(),
                map@.len() == map.segments@.len(),
                pos < total && map@.len() > 0 ==> !map@.last().to_eof && map@.last().next_floor()
                    <= floor,
                parse_index(bytes@, 0, 0, device) == prepend(
                    map@,
                    parse_index(
                        bytes@.subrange(pos as int, total as int),
                        pos as int,
                        floor as int,
                        device,
                    ),
                ),
            decreases total - pos,
        {
            let ghost rest = bytes@.subrange(pos as int, total as int);
            let ghost before = map@;
            let (seg, next) = match read_record(bytes, pos, device_sectors) {
                Some(record) => record,
                None => {
                    return Err(IndexError::CorruptIndex { record_offset: pos });
                },
            };
            if seg.start() < floor {
                return Err(IndexError::CorruptIndex { record_offset: pos });
            }
            let ghost tail = rest.subrange(next - pos, rest.len() as int);
            proof {
                lemma_appended_plain(before, seg@);
                assert(bytes@.subrange(next as int, total as int) =~= tail);
                let parsed = parse_index(tail, next as int, seg@.next_floor(), device);
                if let Ok(more) = parsed {
                    assert(before + (seq![seg@] + more) =~= before.push(seg@) + more);
                }
            }
            if next < total {
                floor = if seg.bit_count() == 0 {
                    seg.start() + 1
                } else {
                    seg.end()
                };
            }
            map.segments.push(seg);
            assert(map@ =~= before.push(seg@));
            pos = next;
        }
        assert(bytes@.subrange(total as int, total as int) =~= Seq::<u8>::empty());
        assert(map@ + Seq::<SegmentView>::empty() =~= map@);
        Ok(map)
    }

    /// Number of segments that start at or before `addr`; they come first.
    fn count_starting_by(&self, addr: SectorAddress) -> (count: usize)
        requires
            self.wf(),
        ensures
            count <= self@.len(),
            count <= self.segments@.len(),
            forall|i: int| 0 <= i < count ==> (#[trigger] self@[i]).start <= addr,
            forall|i: int| count <= i < self@.len() ==> (#[trigger] self@[i]).start > addr,
    {
        let mut low: usize = 0;
        let mut high: usize = self.segments.len();
        while low < high
            invariant
                self.wf(),
                low <= high <= self@.len(),
                high <= self.segments@.len(),
                forall|i: int| 0 <= i < low ==> (#[trigger] self@[i]).start <= addr,
                forall|i: int| high <= i < self@.len() ==> (#[trigger] self@[i]).start > addr,
            decreases high - low,
        {
            let mid = low + (high - low) / 2;
            if self.segments[mid].start() <= addr {
                assert forall|i: int| 0 <= i < mid + 1 implies (#[trigger] self@[i]).start
                    <= addr by {
                    if i < mid {
                        assert(self@[i].start < self@[mid as int].start);
                    }
                }
                low = mid + 1;
            } else {
                assert forall|i: int| mid <= i < self@.len() implies (#[trigger] self@[i]).start
                    > addr by {
                    if i > mid {
                        assert(self@[mid as int].start < self@[i].start);
                    }
                }
                high = mid;
            }
        }
        low
    }

    /// Whether the sector at `addr` is occupied. Sectors that no segment
    /// records are empty.
    pub fn is_occupied(&self, addr: SectorAddress) -> (b: bool)
        requires
            self.wf(),
        ensures
            b == occupied(self@, addr as int),
    {
        let count = self.count_starting_by(addr);
        if count == 0 {
            proof {
                lemma_before_first(self@, addr as int);
            }
            return false;
        }
        proof {
            lemma_owner(self@, count - 1, addr as int);
        }
        match self.segments[count - 1].covers(addr) {
            Some(bit) => bit,
            None => false,
        }
    }

    /// The first occupied sector at or after `from`, or `None` when no
    /// occupied sector is left.
    pub fn next_occupied(&self, from: SectorAddress) -> (next: Option<SectorAddress>)
        requires
            self.wf(),
        ensures
            is_next_occupied(
                self@,
                from as int,
                match next {
                    Some(addr) => Some(addr as int),
                    None => None,
                },
            ),
    {
        let count = self.count_starting_by(from);
        let mut i: usize = if count > 0 {
            count - 1
        } else {
            0
        };
        proof {
            assert forall|addr: int|
                from <= addr && (i < self@.len() ==> addr < self@[i as int].start) && self@.len()
                    > 0 implies !occupied(self@, addr) by {
                lemma_before_first(self@, addr);
            }
            assert(self@.len() == 0 ==> clear_from(self@, from as int)) by {
                assert forall|addr: int| self@.len() == 0 implies !occupied(self@, addr) by {
                    lemma_before_first(self@, addr);
                }
            }
        }
        while i < self.segments.len()
            invariant
                self.wf(),
                i <= self@.len(),
                self@.len() == self.segments@.len(),
                i < self@.len() ==> clear_between(self@, from as int, self@[i as int].start),
                i == self@.len() ==> clear_from(self@, from as int),
            decreases self@.len() - i,
        {
            let seg = &self.segments[i];
            let start = seg.start();
            let bit_count = seg.bit_count();
            let mut index: u64 = if from <= start {
                0
            } else if from - start < bit_count {
                from - start
            } else {
                bit_count
            };
            while index < bit_count
                invariant
                    self.wf(),
                    i < self@.len(),
                    seg@ == self@[i as int],
                    seg.wf(),
                    start == seg@.start,
                    bit_count == seg@.bit_count,
                    index <= bit_count,
                    index < bit_count ==> from <= start + index,
                    clear_between(self@, from as int, start + index),
                decreases bit_count - index,
            {
                let bitmap = seg.bitmap();
                let bitmap_len = bitmap.len();
                assert(index / 8 < bitmap_len);
                let byte = bitmap[(index / 8) as usize];
                if index % 8 == 0 && bit_count - index >= 8 && byte == 0 {
                    proof {
                        assert forall|addr: int| start + index <= addr < start + index
                            + 8 implies !occupied(self@, addr) by {
                            lemma_owner(self@, i as int, addr);
                            let offset = addr - start;
                            assert(offset / 8 == index / 8);
                            lemma_zero_byte(seg@.bitmap[offset / 8], (offset % 8) as u8);
                        }
                    }
                    index += 8;
                } else {
                    proof {
                        lemma_owner(self@, i as int, start + index);
                    }
                    if seg.bit(index) {
                        return Some(start + index);
                    }
                    index += 1;
                }
            }
            proof {
                assert forall|addr: int|
                    from <= addr && (i + 1 < self@.len() ==> addr < self@[i + 1].start)
                        && seg@.end() <= addr implies !occupied(self@, addr) by {
                    lemma_owner(self@, i as int, addr);
                }
            }
            i += 1;
        }
        None
    }
}

} // verus!
