use vstd::prelude::*;

verus! {

/// The simulated calendar: the current day, whether that day's turn is
/// being processed, and when (in milliseconds of run time) it last advanced.
pub struct Days {
    pub days: u64,
    pub next_turn: bool,
    pub last_update: u64,
}

impl Days {
    pub fn new() -> (r: Days)
        ensures
            r.days == 0,
            !r.next_turn,
            r.last_update == 0,
    {
        Days { days: 0, next_turn: false, last_update: 0 }
    }

    /// Starts the next day at time `now` and opens its turn.
    pub fn next_day(&mut self, now: u64)
        requires
            old(self).days < u64::MAX,
        ensures
            final(self).days == old(self).days + 1,
            final(self).next_turn,
            final(self).last_update == now,
    {
        self.days = self.days + 1;
        self.next_turn = true;
        self.last_update = now;
    }
}

/// Advances the calendar by one day at time `now`.
pub fn date_update_system(days: &mut Days, now: u64)
    requires
        old(days).days < u64::MAX,
    ensures
        final(days).days == old(days).days + 1,
        final(days).next_turn,
        final(days).last_update == now,
{
    days.next_day(now);
}

/// Whether a new day is due at time `now`: never while the interval is zero
/// (the simulation is paused), else once more than `interval` has passed
/// since the last advance.
pub fn should_advance_day(now: u64, days: &Days, interval: u64) -> (r: bool)
    ensures
        r == (interval != 0 && now - days.last_update > interval),
{
    if interval == 0 {
        return false;
    }
    now >= days.last_update && now - days.last_update > interval
}

/// Closes the turn of the current day.
pub fn turn_end_system(days: &mut Days)
    ensures
        !final(days).next_turn,
        final(days).days == old(days).days,
        final(days).last_update == old(days).last_update,
{
    days.next_turn = false;
}

/// Whether the turn of the current day is being processed.
pub fn next_turn(days: &Days) -> (r: bool)
    ensures
        r == days.next_turn,
{
    days.next_turn
}

} // verus!
