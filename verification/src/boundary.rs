use crate::source::Vertical;
use vstd::prelude::*;

verus! {

/// Severity of one diagnostic entry.
#[derive(Clone, Copy, PartialEq, Eq, Structural, Debug)]
pub enum LogLevel {
    Debug,
    Error,
}

/// One diagnostic entry emitted at the boundary. Failure detail crosses into
/// the log stream only, never into a return value.
pub struct LogEntry {
    pub level: LogLevel,
    pub message: String,
}

/// Holds when `after` is `before` with exactly one entry of the given level
/// and message appended.
pub open spec fn logged(
    before: Seq<LogEntry>,
    after: Seq<LogEntry>,
    level: LogLevel,
    message: Seq<char>,
) -> bool {
    &&& after.len() == before.len() + 1
    &&& after.subrange(0, before.len() as int) == before
    &&& after.last().level == level
    &&& after.last().message@ == message
}

/// How many sources are live (opened and not yet closed) in the handle table.
pub open spec fn count_live(slots: Seq<Option<Vertical>>) -> int
    decreases slots.len(),
{
    if slots.len() == 0 {
        0
    } else {
        count_live(slots.drop_last()) + if slots.last() is Some {
            1int
        } else {
            0int
        }
    }
}

pub proof fn lemma_count_live_bounds(slots: Seq<Option<Vertical>>)
    ensures
        0 <= count_live(slots) <= slots.len(),
    decreases slots.len(),
{
    if slots.len() > 0 {
        lemma_count_live_bounds(slots.drop_last());
    }
}

pub proof fn lemma_count_live_push(slots: Seq<Option<Vertical>>, slot: Option<Vertical>)
    ensures
        count_live(slots.push(slot)) == count_live(slots) + if slot is Some {
            1int
        } else {
            0int
        },
{
    assert(slots.push(slot).drop_last() =~= slots);
}

pub proof fn lemma_count_live_update(slots: Seq<Option<Vertical>>, i: int, slot: Option<Vertical>)
    requires
        0 <= i < slots.len(),
    ensures
        count_live(slots.update(i, slot)) == count_live(slots) - (if slots[i] is Some {
            1int
        } else {
            0int
        }) + (if slot is Some {
            1int
        } else {
            0int
        }),
    decreases slots.len(),
{
    let updated = slots.update(i, slot);
    if i == slots.len() - 1 {
        assert(updated.drop_last() =~= slots.drop_last());
        assert(updated.last() == slot);
    } else {
        assert(updated.drop_last() =~= slots.drop_last().update(i, slot));
        assert(updated.last() == slots.last());
        lemma_count_live_update(slots.drop_last(), i, slot);
    }
}

/// The state of the boundary adapter: the handle table, the counts of
/// resources whose ownership currently sits on the host's side, and the
/// diagnostic entries not yet forwarded to the host's logging subsystem.
///
/// A handle is an index into the table; the host-facing sentinel for "no
/// handle" is `None`. The host must pass a handle only between the open that
/// returned it and its close, and must free each returned string exactly
/// once: those are documented preconditions, stated as `requires`.
pub struct Boundary {
    pub sources: Vec<Option<Vertical>>,
    pub handles_live: usize,
    pub strings_live: usize,
    pub log: Vec<LogEntry>,
}

impl Boundary {
    /// The live-handle count agrees with the handle table, and every live
    /// source is well formed.
    pub open spec fn wf(self) -> bool {
        &&& self.handles_live as int == count_live(self.sources@)
        &&& forall|i: int|
            0 <= i < self.sources@.len() && self.sources@[i] is Some
                ==> (#[trigger] self.sources@[i])->Some_0.wf()
    }

    /// `h` names a live source.
    pub open spec fn valid_handle(self, h: int) -> bool {
        0 <= h < self.sources@.len() && self.sources@[h] is Some
    }

    /// The live source that `h` names.
    pub open spec fn live_source(self, h: int) -> Vertical
        recommends
            self.valid_handle(h),
    {
        self.sources@[h]->Some_0
    }

    /// A fresh boundary: nothing open, nothing owed, nothing logged.
    pub fn new() -> (b: Boundary)
        ensures
            b.wf(),
            b.sources@.len() == 0,
            b.handles_live == 0,
            b.strings_live == 0,
            b.log@.len() == 0,
    {
        Boundary { sources: Vec::new(), handles_live: 0, strings_live: 0, log: Vec::new() }
    }

    /// Opens a line source at the boundary. `path` names the file and is used
    /// only in the diagnostic entry; `opened` is the outcome of opening and
    /// reading it. On success the source is stored, a debug entry is logged
    /// and a fresh handle is returned; on failure nothing is allocated,
    /// exactly one error entry is logged, and the null sentinel is returned.
    pub fn vertical_new(&mut self, path: String, opened: Result<Vertical, String>) -> (h: Option<
        usize,
    >)
        requires
            old(self).wf(),
            opened matches Ok(v) ==> v.wf(),
        ensures
            final(self).wf(),
            final(self).strings_live == old(self).strings_live,
            opened matches Ok(v) ==> {
                &&& h matches Some(i) && i as int == old(self).sources@.len()
                &&& final(self).sources@ == old(self).sources@.push(Some(v))
                &&& final(self).valid_handle(old(self).sources@.len() as int)
                &&& final(self).handles_live == old(self).handles_live + 1
                &&& logged(old(self).log@, final(self).log@, LogLevel::Debug, path@)
            },
            opened is Err ==> {
                &&& h is None
                &&& final(self).sources@ == old(self).sources@
                &&& final(self).handles_live == old(self).handles_live
                &&& logged(old(self).log@, final(self).log@, LogLevel::Error, opened->Err_0@)
            },
    {
        match opened {
            Ok(v) => {
                let h = self.sources.len();
                self.sources.push(Some(v));
                let n = self.sources.len();
                proof {
                    lemma_count_live_push(old(self).sources@, Some(v));
                    lemma_count_live_bounds(old(self).sources@);
                    assert(self.handles_live < n);
                }
                self.handles_live = self.handles_live + 1;
                self.log.push(LogEntry { level: LogLevel::Debug, message: path });
                proof {
                    assert(self.log@.subrange(0, old(self).log@.len() as int) =~= old(self).log@);
                }
                Some(h)
            },
            Err(message) => {
                self.log.push(LogEntry { level: LogLevel::Error, message });
                proof {
                    assert(self.log@.subrange(0, old(self).log@.len() as int) =~= old(self).log@);
                }
                None
            },
        }
    }

    /// Releases the source that `handle` names. The null sentinel is a no-op;
    /// a live handle is always accepted, its slot is emptied, and a debug
    /// entry is logged. Closing the same handle twice is a documented
    /// precondition violation, excluded by `requires`.
    pub fn vertical_free(&mut self, handle: Option<usize>)
        requires
            old(self).wf(),
            handle matches Some(h) ==> old(self).valid_handle(h as int),
        ensures
            final(self).wf(),
            final(self).strings_live == old(self).strings_live,
            handle is None ==> *final(self) == *old(self),
            handle matches Some(h) ==> {
                &&& final(self).sources@ == old(self).sources@.update(h as int, None)
                &&& final(self).handles_live == old(self).handles_live - 1
                &&& logged(
                    old(self).log@,
                    final(self).log@,
                    LogLevel::Debug,
                    "Deallocating Vertical"@,
                )
            },
    {
        match handle {
            None => {},
            Some(h) => {
                proof {
                    lemma_count_live_update(old(self).sources@, h as int, None);
                    lemma_count_live_bounds(old(self).sources@.update(h as int, None));
                }
                self.sources[h] = None;
                self.handles_live = self.handles_live - 1;
                self.log.push(
                    LogEntry {
                        level: LogLevel::Debug,
                        message: String::from_str("Deallocating Vertical"),
                    },
                );
                proof {
                    assert(self.log@.subrange(0, old(self).log@.len() as int) =~= old(self).log@);
                }
            },
        }
    }

    /// Pulls one line from the source that `h` names. Three outcomes: a line
    /// becomes a fresh host-owned string and a debug entry; exhaustion is the
    /// null sentinel with no entry, and leaves the source unchanged, so
    /// every later pull is null as well; a read failure is the null sentinel
    /// with exactly one error entry carrying the failure's message, and
    /// exhausts the source permanently. The host cannot tell exhaustion from
    /// failure by the return value alone.
    pub fn vertical_next_line(&mut self, h: usize) -> (r: Option<String>)
        requires
            old(self).wf(),
            old(self).valid_handle(h as int),
            old(self).strings_live < usize::MAX,
        ensures
            final(self).wf(),
            final(self).handles_live == old(self).handles_live,
            final(self).sources@.len() == old(self).sources@.len(),
            final(self).valid_handle(h as int),
            forall|j: int|
                0 <= j < old(self).sources@.len() && j != h ==> final(self).sources@[j] == old(
                    self,
                ).sources@[j],
            ({
                let before = old(self).live_source(h as int).remaining();
                let after = final(self).live_source(h as int).remaining();
                if before.len() == 0 {
                    &&& r is None
                    &&& after == before
                    &&& final(self).sources@ == old(self).sources@
                    &&& final(self).strings_live == old(self).strings_live
                    &&& final(self).log@ == old(self).log@
                } else if before[0] is Ok {
                    &&& r matches Some(line) && line@ == before[0]->Ok_0
                    &&& after == before.drop_first()
                    &&& final(self).strings_live == old(self).strings_live + 1
                    &&& logged(
                        old(self).log@,
                        final(self).log@,
                        LogLevel::Debug,
                        "Allocating string"@,
                    )
                } else {
                    &&& r is None
                    &&& after.len() == 0
                    &&& final(self).strings_live == old(self).strings_live
                    &&& logged(old(self).log@, final(self).log@, LogLevel::Error, before[0]->Err_0)
                }
            }),
    {
        let mut taken: Option<Vertical> = None;
        core::mem::swap(&mut taken, &mut self.sources[h]);
        let mut v = taken.unwrap();
        let pulled = v.next_line();
        self.sources[h] = Some(v);
        proof {
            assert(self.sources@ =~= old(self).sources@.update(h as int, self.sources@[h as int]));
            lemma_count_live_update(old(self).sources@, h as int, self.sources@[h as int]);
        }
        match pulled {
            Some(Ok(line)) => {
                self.strings_live = self.strings_live + 1;
                self.log.push(
                    LogEntry {
                        level: LogLevel::Debug,
                        message: String::from_str("Allocating string"),
                    },
                );
                proof {
                    assert(self.log@.subrange(0, old(self).log@.len() as int) =~= old(self).log@);
                }
                Some(line)
            },
            Some(Err(message)) => {
                self.log.push(LogEntry { level: LogLevel::Error, message });
                proof {
                    assert(self.log@.subrange(0, old(self).log@.len() as int) =~= old(self).log@);
                }
                None
            },
            None => None,
        }
    }

    /// Releases a host-owned string previously returned by a pull. The null
    /// sentinel is a no-op; otherwise the string is consumed, the count of
    /// host-owned strings drops by one, and a debug entry is logged. Freeing
    /// the same string twice is a documented precondition violation,
    /// excluded by `requires`.
    pub fn string_free(&mut self, string: Option<String>)
        requires
            old(self).wf(),
            string is Some ==> old(self).strings_live > 0,
        ensures
            final(self).wf(),
            final(self).sources@ == old(self).sources@,
            final(self).handles_live == old(self).handles_live,
            string is None ==> *final(self) == *old(self),
            string is Some ==> {
                &&& final(self).strings_live == old(self).strings_live - 1
                &&& logged(
                    old(self).log@,
                    final(self).log@,
                    LogLevel::Debug,
                    "Deallocating string"@,
                )
            },
    {
        match string {
            None => {},
            Some(_owned) => {
                self.strings_live = self.strings_live - 1;
                self.log.push(
                    LogEntry {
                        level: LogLevel::Debug,
                        message: String::from_str("Deallocating string"),
                    },
                );
                proof {
                    assert(self.log@.subrange(0, old(self).log@.len() as int) =~= old(self).log@);
                }
            },
        }
    }

    /// Hands the accumulated diagnostic entries to the caller, oldest first,
    /// and clears them: the host forwards each entry to its logging
    /// subsystem after every boundary call.
    pub fn take_log(&mut self) -> (entries: Vec<LogEntry>)
        ensures
            entries@ == old(self).log@,
            final(self).log@.len() == 0,
            final(self).sources@ == old(self).sources@,
            final(self).handles_live == old(self).handles_live,
            final(self).strings_live == old(self).strings_live,
            old(self).wf() ==> final(self).wf(),
    {
        let mut out: Vec<LogEntry> = Vec::new();
        core::mem::swap(&mut out, &mut self.log);
        out
    }
}

/// Law: a handle born from a successful open is accepted by close, and the
/// open/close pair leaves the handle table as it was: the live count is
/// restored and no other source is touched.
pub proof fn lemma_open_close_balanced(
    b0: Boundary,
    b1: Boundary,
    b2: Boundary,
    h: usize,
    v: Vertical,
)
    requires
        b0.wf(),
        h as int == b0.sources@.len(),
        b1.sources@ == b0.sources@.push(Some(v)),
        b1.handles_live == b0.handles_live + 1,
        b2.sources@ == b1.sources@.update(h as int, None),
        b2.handles_live == b1.handles_live - 1,
    ensures
        b1.valid_handle(h as int),
        b2.handles_live == b0.handles_live,
        forall|j: int| 0 <= j < b0.sources@.len() ==> b2.sources@[j] == b0.sources@[j],
{
}

/// Law: a string born from a pull is accepted by its free, and the pull/free
/// pair leaves the count of host-owned strings unchanged: while the host
/// still holds the string the count stays positive, which is all that the
/// free operation requires.
pub proof fn lemma_string_free_balanced(b0: Boundary, b1: Boundary, b2: Boundary)
    requires
        b1.strings_live == b0.strings_live + 1,
        b2.strings_live == b1.strings_live - 1,
    ensures
        b1.strings_live > 0,
        b2.strings_live == b0.strings_live,
{
}

} // verus!
