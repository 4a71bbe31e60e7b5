use vstd::prelude::*;

verus! {

/// A marker that the presentation layer attaches to an agent it follows.
#[derive(PartialEq, Eq, Structural, Clone, Copy, Debug)]
pub struct Pinned {}

/// A textual event about one agent.
#[derive(Clone, Debug)]
pub struct LogEvent {
    pub text: String,
    pub entity: u64,
}

/// An event with the day on which it was recorded.
#[derive(Debug)]
pub struct LogEntry {
    pub entry: LogEvent,
    pub day: u64,
}

/// The log: every recorded event, oldest first.
pub struct Logs {
    pub entries: Vec<LogEntry>,
}

impl Logs {
    pub fn new() -> (r: Logs)
        ensures
            r.entries@.len() == 0,
    {
        Logs { entries: Vec::new() }
    }
}

/// Appends `new_logs`, in order, each stamped with `day`.
pub fn logging_system(new_logs: Vec<LogEvent>, logs: &mut Logs, day: u64)
    ensures
        final(logs).entries@.len() == old(logs).entries@.len() + new_logs@.len(),
        forall|i: int| 0 <= i < old(logs).entries@.len() ==> #[trigger] final(logs).entries@[i] == old(logs).entries@[i],
        forall|i: int| 0 <= i < new_logs@.len() ==> {
            let e = #[trigger] final(logs).entries@[old(logs).entries@.len() + i];
            &&& e.entry == new_logs@[i]
            &&& e.day == day
        },
{
    let ghost start = logs.entries@.len();
    let mut rest = new_logs;
    let ghost all = rest@;
    let mut i: usize = 0;
    let n = rest.len();
    assert(rest@ =~= all.subrange(0, n as int));
    while i < n
        invariant
            n == all.len(),
            i <= n,
            rest@ =~= all.subrange(i as int, n as int),
            logs.entries@.len() == start + i,
            start == old(logs).entries@.len(),
            forall|k: int| 0 <= k < start ==> #[trigger] logs.entries@[k] == old(logs).entries@[k],
            forall|k: int| 0 <= k < i ==> {
                let e = #[trigger] logs.entries@[start + k];
                &&& e.entry == all[k]
                &&& e.day == day
            },
        decreases n - i,
    {
        let ev = rest.remove(0);
        assert(ev == all[i as int]);
        logs.entries.push(LogEntry { entry: ev, day });
        assert(rest@ =~= all.subrange(i + 1, n as int));
        i = i + 1;
    }
}

} // verus!
