use crate::split::{split_into_lines, split_lines};
use crate::CorpyResult;
use vstd::prelude::*;

verus! {

/// The event stream of a failure-free source: each line, in order.
pub open spec fn ok_lines(lines: Seq<Seq<char>>) -> Seq<Result<Seq<char>, Seq<char>>> {
    lines.map_values(|l: Seq<char>| Ok::<Seq<char>, Seq<char>>(l))
}

/// What one poll of the underlying line iterator yielded: a line of text, or
/// the message of a read-level failure.
pub open spec fn event_view(e: CorpyResult<String>) -> Result<Seq<char>, Seq<char>> {
    match e {
        Ok(line) => Ok(line@),
        Err(message) => Err(message@),
    }
}

/// The view of a whole event stream.
pub open spec fn events_view(events: Seq<CorpyResult<String>>) -> Seq<
    Result<Seq<char>, Seq<char>>,
> {
    events.map_values(|e: CorpyResult<String>| event_view(e))
}

/// A single-pass, forward-only line source: it yields the stored events one
/// at a time and is exhausted once they run out or once a failure was
/// yielded (after a failure it never yields again).
pub struct Vertical {
    pub items: Vec<CorpyResult<String>>,
    pub pos: usize,
    pub failed: bool,
}

impl Vertical {
    /// The cursor never runs past the stored events.
    pub open spec fn wf(self) -> bool {
        self.pos <= self.items@.len()
    }

    /// The events this source will still yield, in order. Empty once the
    /// input is exhausted or a failure was yielded.
    pub open spec fn remaining(self) -> Seq<Result<Seq<char>, Seq<char>>> {
        if self.failed {
            Seq::empty()
        } else {
            events_view(self.items@).skip(self.pos as int)
        }
    }

    /// Opens a line source over the full text of a file: it will yield each
    /// line of `content`, with its terminating newline stripped, in order.
    pub fn new(content: &str) -> (v: Vertical)
        ensures
            v.wf(),
            v.remaining() == ok_lines(split_lines(content@)),
    {
        let lines = split_into_lines(content);
        let n = lines.len();
        let mut items: Vec<CorpyResult<String>> = Vec::new();
        let mut i: usize = 0;
        while i < n
            invariant
                n == lines@.len(),
                i <= n,
                items@.len() == i,
                forall|j: int| 0 <= j < i ==> #[trigger] items@[j] == Ok::<String, String>(
                    lines@[j],
                ),
            decreases n - i,
        {
            let line = lines[i].clone();
            items.push(Ok(line));
            i = i + 1;
        }
        proof {
            assert(events_view(items@) =~= ok_lines(split_lines(content@)));
        }
        let v = Vertical { items, pos: 0, failed: false };
        proof {
            assert(v.remaining() =~= events_view(v.items@));
        }
        v
    }

    /// Builds a line source directly over the event stream that the
    /// underlying line iterator will yield, failures included.
    pub fn from_events(events: Vec<CorpyResult<String>>) -> (v: Vertical)
        ensures
            v.wf(),
            v.remaining() == events_view(events@),
    {
        let v = Vertical { items: events, pos: 0, failed: false };
        proof {
            assert(v.remaining() =~= events_view(v.items@));
        }
        v
    }

    /// Yields the next event, or nothing once the source is exhausted.
    /// Exhaustion is idempotent: once the source yields nothing it is left
    /// unchanged, so every later call yields nothing as well. A failure
    /// exhausts the source permanently.
    pub fn next_line(&mut self) -> (r: Option<CorpyResult<String>>)
        requires
            old(self).wf(),
        ensures
            final(self).wf(),
            old(self).remaining().len() == 0 ==> r is None && *final(self) == *old(self),
            old(self).remaining().len() > 0 && old(self).remaining()[0] is Ok ==> {
                &&& r matches Some(Ok(line)) && line@ == old(self).remaining()[0]->Ok_0
                &&& final(self).remaining() == old(self).remaining().drop_first()
            },
            old(self).remaining().len() > 0 && old(self).remaining()[0] is Err ==> {
                &&& r matches Some(Err(message)) && message@ == old(self).remaining()[0]->Err_0
                &&& final(self).remaining() == Seq::<Result<Seq<char>, Seq<char>>>::empty()
            },
    {
        if self.failed || self.pos >= self.items.len() {
            return None;
        }
        let item = &self.items[self.pos];
        match item {
            Ok(line) => {
                let out = line.clone();
                let ghost before = self.remaining();
                self.pos = self.pos + 1;
                proof {
                    assert(before[0] == event_view(old(self).items@[old(self).pos as int]));
                    assert(self.remaining() =~= before.drop_first());
                }
                Some(Ok(out))
            },
            Err(message) => {
                let out = message.clone();
                proof {
                    assert(old(self).remaining()[0] == event_view(
                        old(self).items@[old(self).pos as int],
                    ));
                }
                self.failed = true;
                Some(Err(out))
            },
        }
    }
}

/// Law: a source opened over stored lines yields exactly those lines, in
/// order, and then nothing. At cursor `i` the head of what remains is the
/// `i`-th line, yielding it advances the cursor to `i + 1`, and at the end
/// nothing remains.
pub proof fn lemma_lines_in_order(lines: Seq<Seq<char>>, i: int)
    requires
        0 <= i <= lines.len(),
    ensures
        i < lines.len() ==> {
            &&& ok_lines(lines).skip(i).len() > 0
            &&& ok_lines(lines).skip(i)[0] == Ok::<Seq<char>, Seq<char>>(lines[i])
            &&& ok_lines(lines).skip(i).drop_first() == ok_lines(lines).skip(i + 1)
        },
        i == lines.len() ==> ok_lines(lines).skip(i).len() == 0,
{
    if i < lines.len() {
        assert(ok_lines(lines).skip(i).drop_first() =~= ok_lines(lines).skip(i + 1));
    }
}

} // verus!
