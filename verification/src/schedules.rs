use vstd::prelude::*;
use crate::error::Error;

verus! {

/// One scouter's watch at one station, over a range of matches.
#[derive(Clone, Debug, PartialEq, Eq)]
pub struct Shift {
    pub scouter: String,
    pub station: u8,
    pub match_start: u32,
    pub match_end: u32,
}

/// A shift as a mathematical value.
pub struct ShiftView {
    pub scouter: Seq<char>,
    pub station: u8,
    pub match_start: u32,
    pub match_end: u32,
}

impl View for Shift {
    type V = ShiftView;

    open spec fn view(&self) -> ShiftView {
        ShiftView {
            scouter: self.scouter@,
            station: self.station,
            match_start: self.match_start,
            match_end: self.match_end,
        }
    }
}

impl Default for Shift {
    /// A shift of nobody, at station 0, over no match.
    fn default() -> (shift: Shift)
        ensures
            shift@ == (ShiftView { scouter: Seq::empty(), station: 0, match_start: 0, match_end: 0 }),
    {
        Shift { scouter: String::new(), station: 0, match_start: 0, match_end: 0 }
    }
}

impl Shift {
    /// A copy of the shift.
    pub fn duplicate(&self) -> (copy: Shift)
        ensures
            copy@ == self@,
    {
        Shift {
            scouter: self.scouter.clone(),
            station: self.station,
            match_start: self.match_start,
            match_end: self.match_end,
        }
    }
}

/// The shifts of an event, in the order they were entered.
#[derive(Clone, Debug, PartialEq, Eq)]
pub struct Schedule {
    pub event: String,
    pub shifts: Vec<Shift>,
}

/// A schedule as a mathematical value.
pub struct ScheduleView {
    pub event: Seq<char>,
    pub shifts: Seq<ShiftView>,
}

impl View for Schedule {
    type V = ScheduleView;

    open spec fn view(&self) -> ScheduleView {
        ScheduleView {
            event: self.event@,
            shifts: Seq::new(self.shifts@.len(), |i: int| self.shifts@[i]@),
        }
    }
}

/// The shifts of one scouter, in their order.
pub open spec fn shifts_of(shifts: Seq<ShiftView>, scouter: Seq<char>) -> Seq<ShiftView>
    decreases shifts.len(),
{
    if shifts.len() == 0 {
        Seq::empty()
    } else if shifts.last().scouter == scouter {
        shifts_of(shifts.drop_last(), scouter).push(shifts.last())
    } else {
        shifts_of(shifts.drop_last(), scouter)
    }
}

impl Default for Schedule {
    /// A schedule without shifts, for an event without a name.
    fn default() -> (schedule: Schedule)
        ensures
            schedule@ == (ScheduleView { event: Seq::empty(), shifts: Seq::empty() }),
    {
        let schedule = Schedule { event: String::new(), shifts: Vec::new() };
        assert(schedule@.shifts =~= Seq::<ShiftView>::empty());
        schedule
    }
}

impl Schedule {
    /// Appends a shift and returns its position.
    pub fn add_shift(&mut self, shift: Shift) -> (position: usize)
        ensures
            position == old(self)@.shifts.len(),
            final(self)@ == (ScheduleView {
                shifts: old(self)@.shifts.push(shift@),
                ..old(self)@
            }),
    {
        let position = self.shifts.len();
        self.shifts.push(shift);
        assert(self@.shifts =~= old(self)@.shifts.push(shift@));
        position
    }

    /// Takes out the shift at position `idx` and returns it; the later shifts
    /// move up. `NotFound` where the schedule has no such position.
    pub fn remove_shift(&mut self, idx: u64) -> (res: Result<Shift, Error>)
        ensures
            match res {
                Ok(shift) => idx < old(self)@.shifts.len() && shift@ == old(self)@.shifts[idx as int]
                    && final(self)@ == (ScheduleView {
                    shifts: old(self)@.shifts.remove(idx as int),
                    ..old(self)@
                }),
                Err(e) => e == Error::NotFound && idx >= old(self)@.shifts.len() && final(self)@ == old(
                    self,
                )@,
            },
    {
        if idx >= self.shifts.len() as u64 {
            return Err(Error::NotFound);
        }
        let shift = self.shifts.remove(idx as usize);
        assert(self@.shifts =~= old(self)@.shifts.remove(idx as int));
        Ok(shift)
    }

    /// Puts `shift` at position `idx` and returns the shift that stood there.
    /// `NotFound` where the schedule has no such position.
    pub fn edit_shift(&mut self, idx: u64, shift: Shift) -> (res: Result<Shift, Error>)
        ensures
            match res {
                Ok(before) => idx < old(self)@.shifts.len() && before@ == old(self)@.shifts[idx as int]
                    && final(self)@ == (ScheduleView {
                    shifts: old(self)@.shifts.update(idx as int, shift@),
                    ..old(self)@
                }),
                Err(e) => e == Error::NotFound && idx >= old(self)@.shifts.len() && final(self)@ == old(
                    self,
                )@,
            },
    {
        if idx >= self.shifts.len() as u64 {
            return Err(Error::NotFound);
        }
        let before = self.shifts[idx as usize].duplicate();
        self.shifts.set(idx as usize, shift);
        assert(self@.shifts =~= old(self)@.shifts.update(idx as int, shift@));
        Ok(before)
    }

    /// The shifts of one scouter, in their order.
    pub fn get_shifts(&self, scouter: &str) -> (shifts: Vec<Shift>)
        ensures
            shifts@.len() == shifts_of(self@.shifts, scouter@).len(),
            forall|k: int|
                0 <= k < shifts@.len() ==> (#[trigger] shifts@[k])@ == shifts_of(self@.shifts, scouter@)[k],
    {
        let who = scouter.to_owned();
        let mut shifts: Vec<Shift> = Vec::new();
        let mut i: usize = 0;
        assert(self@.shifts.take(0) =~= Seq::<ShiftView>::empty());
        while i < self.shifts.len()
            invariant
                i <= self.shifts.len(),
                who@ == scouter@,
                shifts@.len() == shifts_of(self@.shifts.take(i as int), scouter@).len(),
                forall|k: int|
                    0 <= k < shifts@.len() ==> (#[trigger] shifts@[k])@ == shifts_of(
                        self@.shifts.take(i as int),
                        scouter@,
                    )[k],
            decreases self.shifts.len() - i,
        {
            proof {
                let next = self@.shifts.take(i + 1);
                assert(next.last() == self@.shifts[i as int]);
                assert(next.drop_last() =~= self@.shifts.take(i as int));
            }
            if self.shifts[i].scouter == who {
                shifts.push(self.shifts[i].duplicate());
            }
            i += 1;
        }
        assert(self@.shifts.take(self@.shifts.len() as int) =~= self@.shifts);
        shifts
    }
}

} // verus!
