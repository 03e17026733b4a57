//! A calendar of study meetings in which no two meetings overlap.

use vstd::prelude::*;

verus! {

/// A point in time: whole seconds since the epoch, and the nanoseconds that
/// have passed within that second.
#[derive(Clone, Copy, Debug, PartialEq, Eq, Structural)]
pub struct Moment {
    pub seconds: i64,
    pub nanos: u32,
}

impl Moment {
    /// This moment is earlier than `other`.
    pub open spec fn before(self, other: Moment) -> bool {
        self.seconds < other.seconds || (self.seconds == other.seconds && self.nanos
            < other.nanos)
    }

    /// Tells whether this moment is earlier than `other`.
    pub fn is_before(&self, other: &Moment) -> (r: bool)
        ensures
            r == self.before(*other),
    {
        self.seconds < other.seconds || (self.seconds == other.seconds && self.nanos
            < other.nanos)
    }
}

/// A meeting.
#[derive(Debug, PartialEq, Eq)]
pub struct Schedule {
    /// The number by which the meeting is deleted.
    pub id: u64,
    /// What the meeting is about.
    pub subject: String,
    /// When it begins.
    pub start: Moment,
    /// When it ends.
    pub end: Moment,
}

/// A time span from `start` to `end` overlaps the meeting `schedule`: each of
/// the two begins before the other ends.
pub open spec fn overlaps(schedule: Schedule, start: Moment, end: Moment) -> bool {
    schedule.start.before(end) && start.before(schedule.end)
}

impl Schedule {
    /// Tells whether this meeting and `other` overlap.
    pub fn intersects(&self, other: &Schedule) -> (r: bool)
        ensures
            r == overlaps(*self, other.start, other.end),
    {
        self.start.is_before(&other.end) && other.start.is_before(&self.end)
    }
}

/// The meetings of a calendar, in the order in which they were added.
#[derive(Debug, PartialEq, Eq)]
pub struct Calendar {
    pub schedules: Vec<Schedule>,
}

/// One of the meetings `schedules` overlaps the time span from `start` to
/// `end`.
pub open spec fn conflicts(schedules: Seq<Schedule>, start: Moment, end: Moment) -> bool {
    exists|i: int| 0 <= i < schedules.len() && overlaps(#[trigger] schedules[i], start, end)
}

/// One of the meetings `schedules` has the number `id`.
pub open spec fn has_id(schedules: Seq<Schedule>, id: u64) -> bool {
    exists|i: int| 0 <= i < schedules.len() && (#[trigger] schedules[i]).id == id
}

/// The position of the first of the meetings `schedules` from position `i` on
/// that has the number `id`; the number of meetings if there is none.
pub open spec fn position_of(schedules: Seq<Schedule>, id: u64, i: int) -> int
    decreases schedules.len() - i,
{
    if 0 <= i < schedules.len() && schedules[i].id != id {
        position_of(schedules, id, i + 1)
    } else {
        i
    }
}

/// Adds a meeting unless it overlaps one that the calendar holds. The new
/// meeting gets the number of meetings held so far as its number, and stands
/// behind the others. Tells whether the meeting was added.
pub fn add_schedule(calendar: &mut Calendar, subject: String, start: Moment, end: Moment) -> (added:
    bool)
    ensures
        added == !conflicts(old(calendar).schedules@, start, end),
        added ==> final(calendar).schedules@ == old(calendar).schedules@.push(
            (Schedule { id: old(calendar).schedules.len() as u64, subject, start, end }),
        ),
        !added ==> final(calendar).schedules@ == old(calendar).schedules@,
{
    let id = calendar.schedules.len() as u64;
    let new_schedule = Schedule { id, subject, start, end };
    let mut i: usize = 0;
    while i < calendar.schedules.len()
        invariant
            i <= calendar.schedules.len(),
            calendar.schedules@ == old(calendar).schedules@,
            new_schedule.start == start,
            new_schedule.end == end,
            forall|k: int| 0 <= k < i ==> !overlaps(#[trigger] calendar.schedules[k], start, end),
        decreases calendar.schedules.len() - i,
    {
        if calendar.schedules[i].intersects(&new_schedule) {
            return false;
        }
        i += 1;
    }
    calendar.schedules.push(new_schedule);
    true
}

/// Deletes the first meeting that has the number `id`. Tells whether there
/// was one.
pub fn delete_schedule(calendar: &mut Calendar, id: u64) -> (deleted: bool)
    ensures
        deleted == has_id(old(calendar).schedules@, id),
        deleted == (position_of(old(calendar).schedules@, id, 0) < old(calendar).schedules.len()),
        deleted ==> final(calendar).schedules@ == old(calendar).schedules@.remove(
            position_of(old(calendar).schedules@, id, 0),
        ),
        !deleted ==> final(calendar).schedules@ == old(calendar).schedules@,
{
    proof {
        lemma_position_of(calendar.schedules@, id, 0);
    }
    let mut index: usize = 0;
    while index < calendar.schedules.len()
        invariant
            index <= calendar.schedules.len(),
            calendar.schedules@ == old(calendar).schedules@,
            position_of(calendar.schedules@, id, 0) == position_of(
                calendar.schedules@,
                id,
                index as int,
            ),
        decreases calendar.schedules.len() - index,
    {
        if calendar.schedules[index].id == id {
            calendar.schedules.remove(index);
            return true;
        }
        index += 1;
    }
    false
}

/// The position that `position_of` gives is that of a meeting with the
/// number, no meeting before it has the number, and it is the number of
/// meetings exactly when no meeting has the number.
pub proof fn lemma_position_of(schedules: Seq<Schedule>, id: u64, i: int)
    requires
        0 <= i <= schedules.len(),
    ensures
        i <= position_of(schedules, id, i) <= schedules.len(),
        position_of(schedules, id, i) < schedules.len() ==> schedules[position_of(
            schedules,
            id,
            i,
        )].id == id,
        forall|k: int| i <= k < position_of(schedules, id, i) ==> (#[trigger] schedules[k]).id != id,
    decreases schedules.len() - i,
{
    if i < schedules.len() && schedules[i].id != id {
        lemma_position_of(schedules, id, i + 1);
    }
}

} // verus!
