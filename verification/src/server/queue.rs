//! The queue of the worker pool and what a worker decides: which unit of
//! work it takes next and when it stops, how many workers there are by
//! default, what is written back to a connection when a handler has run, and
//! what the server answers where no route matches.
//!
//! The threads and the lock round the queue belong to the program that
//! embeds the library: a worker there holds the lock while it asks the queue
//! for its next unit, then makes a fresh response, calls the handler and
//! writes the bytes that `respond` gives.

use std::collections::VecDeque;
use vstd::prelude::*;
use vstd::string::*;
use vstd::utf8::*;
use crate::server::reqres::{Response, RouteError};
use crate::server::request::Request;
use crate::server::status::ResponseStatusCode;

verus! {

/// The number of workers for a machine that runs `parallelism` threads at
/// once: half of them, and one at least.
pub open spec fn spec_default_thread_count(parallelism: usize) -> usize {
    if parallelism / 2 >= 1 {
        parallelism / 2
    } else {
        1
    }
}

/// The number of workers for a machine that runs `parallelism` threads at
/// once.
#[verifier::when_used_as_spec(spec_default_thread_count)]
pub fn default_thread_count(parallelism: usize) -> (count: usize)
    ensures
        count == spec_default_thread_count(parallelism),
        count >= 1,
{
    let half = parallelism / 2;
    if half >= 1 {
        half
    } else {
        1
    }
}

/// The body that the server answers with where no route matches.
pub open spec fn not_found_body() -> Seq<u8> {
    encode_utf8("404 not found"@)
}

/// The handler that stands in where no route matches: it sets the status
/// `NotFound` and returns the body that says so.
pub fn default_error<T>(_request: &Request, res: &mut Response, _environment: &T) -> (r: Result<
    Vec<u8>,
    RouteError,
>)
    ensures
        final(res).spec_status() == ResponseStatusCode::NotFound,
        final(res).body() == old(res).body(),
        r is Ok,
        r->Ok_0@ == not_found_body(),
{
    res.set_status(ResponseStatusCode::NotFound);
    Ok("404 not found".as_bytes_vec())
}

/// The status of the response after a handler has returned `outcome`: the
/// status of the failure, or the one the handler left.
pub open spec fn settled_status(
    left: ResponseStatusCode,
    outcome: Result<Seq<u8>, RouteError>,
) -> ResponseStatusCode {
    match outcome {
        Ok(_) => left,
        Err(e) => e.status_code,
    }
}

/// The body of the response after a handler has returned `outcome`: the
/// report of the failure; else the bytes that the handler returned, if it
/// returned any; else the body that it left in the response.
pub open spec fn settled_body(left: Seq<u8>, outcome: Result<Seq<u8>, RouteError>) -> Seq<u8> {
    match outcome {
        Ok(bytes) => if bytes.len() > 0 {
            bytes
        } else {
            left
        },
        Err(e) => encode_utf8(e.output_text()),
    }
}

/// The outcome of a handler, with the returned bytes as a sequence.
pub open spec fn outcome_view(outcome: Result<Vec<u8>, RouteError>) -> Result<Seq<u8>, RouteError> {
    match outcome {
        Ok(bytes) => Ok(bytes@),
        Err(e) => Err(e),
    }
}

/// Brings the outcome of a handler into the response: a failure sets its
/// status and its report as the body, returned bytes replace the body.
pub fn settle(res: &mut Response, outcome: Result<Vec<u8>, RouteError>)
    ensures
        final(res).spec_status() == settled_status(old(res).spec_status(), outcome_view(outcome)),
        final(res).body() == settled_body(old(res).body(), outcome_view(outcome)),
{
    match outcome {
        Ok(bytes) => {
            if bytes.len() > 0 {
                res.send_bytes(bytes);
            }
        },
        Err(e) => {
            res.set_status(e.status_code);
            let report = e.output();
            res.send_string(report.as_str());
        },
    }
}

/// The bytes that go back to the connection for a response: the status line,
/// an empty line, the body.
pub open spec fn wire_bytes(res: Response) -> Seq<u8> {
    encode_utf8(res.header_text()) + res.body()
}

/// The bytes that go back to the connection for `res`.
pub fn render(res: Response) -> (bytes: Vec<u8>)
    ensures
        bytes@ == wire_bytes(res),
{
    let mut bytes = res.header();
    let mut body = res.bytes();
    bytes.append(&mut body);
    bytes
}

/// The bytes that a worker writes back when the handler has left `res` and
/// returned `outcome`.
pub fn respond(res: Response, outcome: Result<Vec<u8>, RouteError>) -> (bytes: Vec<u8>)
    ensures
        bytes@ == encode_utf8(
            "HTTP/1.1 "@ + settled_status(res.spec_status(), outcome_view(outcome)).http_text()
                + "\r\n\r\n"@,
        ) + settled_body(res.body(), outcome_view(outcome)),
{
    let mut res = res;
    settle(&mut res, outcome);
    render(res)
}

/// The queue as it stands: the units of work that wait, the oldest first,
/// and whether more may come.
pub struct QueueState<W> {
    pub pending: Seq<W>,
    pub open: bool,
}

/// What happens to the queue.
pub enum QueueEvent<W> {
    /// A producer hands in a unit of work.
    Add(W),
    /// A worker asks for its next unit.
    Take,
    /// The producer side is closed.
    Close,
}

/// What a worker is told when it asks for its next unit.
pub enum Next<W> {
    /// This unit is the worker's, and no other worker's.
    Work(W),
    /// Nothing waits, but more may come: wait for it.
    Wait,
    /// Nothing waits and nothing will come: stop.
    Exit,
}

impl<W> QueueState<W> {
    /// The queue after `event`.
    pub open spec fn after(self, event: QueueEvent<W>) -> QueueState<W> {
        match event {
            QueueEvent::Add(work) => if self.open {
                QueueState { pending: self.pending.push(work), open: true }
            } else {
                self
            },
            QueueEvent::Take => if self.pending.len() > 0 {
                QueueState { pending: self.pending.drop_first(), open: self.open }
            } else {
                self
            },
            QueueEvent::Close => QueueState { pending: self.pending, open: false },
        }
    }

    /// What the worker that asks is told.
    pub open spec fn answer(self) -> Next<W> {
        if self.pending.len() > 0 {
            Next::Work(self.pending[0])
        } else if self.open {
            Next::Wait
        } else {
            Next::Exit
        }
    }

    /// The units that `event` hands to a worker: one or none.
    pub open spec fn handed_out(self, event: QueueEvent<W>) -> Seq<W> {
        match event {
            QueueEvent::Take => if self.pending.len() > 0 {
                seq![self.pending[0]]
            } else {
                Seq::empty()
            },
            _ => Seq::empty(),
        }
    }

    /// The units that `event` brings into the queue: one or none.
    pub open spec fn taken_in(self, event: QueueEvent<W>) -> Seq<W> {
        match event {
            QueueEvent::Add(work) => if self.open {
                seq![work]
            } else {
                Seq::empty()
            },
            _ => Seq::empty(),
        }
    }

    /// The queue after the events `events`, from a new queue on.
    pub open spec fn run(events: Seq<QueueEvent<W>>) -> QueueState<W>
        decreases events.len(),
    {
        if events.len() == 0 {
            QueueState { pending: Seq::empty(), open: true }
        } else {
            Self::run(events.drop_last()).after(events.last())
        }
    }

    /// The units that the events `events` hand to workers, in order.
    pub open spec fn delivered(events: Seq<QueueEvent<W>>) -> Seq<W>
        decreases events.len(),
    {
        if events.len() == 0 {
            Seq::empty()
        } else {
            Self::delivered(events.drop_last()) + Self::run(events.drop_last()).handed_out(
                events.last(),
            )
        }
    }

    /// The units that the events `events` bring into the queue, in order.
    pub open spec fn accepted(events: Seq<QueueEvent<W>>) -> Seq<W>
        decreases events.len(),
    {
        if events.len() == 0 {
            Seq::empty()
        } else {
            Self::accepted(events.drop_last()) + Self::run(events.drop_last()).taken_in(
                events.last(),
            )
        }
    }

    /// Whatever producers and workers do, and in whatever order: the units
    /// that the queue took in are the units handed to workers followed by
    /// those that still wait. So every unit is handed out once at most, none
    /// is lost, and none comes out that did not go in.
    pub proof fn lemma_each_unit_once(events: Seq<QueueEvent<W>>)
        ensures
            Self::accepted(events) == Self::delivered(events) + Self::run(events).pending,
        decreases events.len(),
    {
        if events.len() == 0 {
            assert(Self::accepted(events) =~= Self::delivered(events) + Self::run(events).pending);
        } else {
            Self::lemma_each_unit_once(events.drop_last());
            let before = Self::run(events.drop_last());
            assert(Self::accepted(events) =~= Self::delivered(events) + Self::run(events).pending);
        }
    }

    /// Once the producer side is closed it stays closed, and nothing more
    /// comes in.
    pub proof fn lemma_closed_stays_closed(self, event: QueueEvent<W>)
        requires
            !self.open,
        ensures
            !self.after(event).open,
            self.taken_in(event) == Seq::<W>::empty(),
            self.after(event).pending.len() <= self.pending.len(),
    {
    }

    /// After the producer side is closed, workers that keep asking are handed
    /// every unit that waits, the oldest first, and are then told to stop:
    /// `self.pending.len()` takes empty the queue, and the answer after them
    /// is `Exit`.
    pub proof fn lemma_closed_queue_drains(self)
        requires
            !self.open,
        ensures
            Self::drained(self, self.pending.len()).pending == Seq::<W>::empty(),
            Self::drained(self, self.pending.len()).answer() == Next::<W>::Exit,
            Self::drained_units(self, self.pending.len()) == self.pending,
        decreases self.pending.len(),
    {
        if self.pending.len() > 0 {
            let rest = self.after(QueueEvent::Take);
            rest.lemma_closed_queue_drains();
            assert(Self::drained_units(self, self.pending.len()) =~= self.pending);
        } else {
            assert(self.pending =~= Seq::empty());
        }
    }

    /// The queue after `takes` workers have asked.
    pub open spec fn drained(state: QueueState<W>, takes: nat) -> QueueState<W>
        decreases takes,
    {
        if takes == 0 {
            state
        } else {
            Self::drained(state.after(QueueEvent::Take), (takes - 1) as nat)
        }
    }

    /// The units that are handed out when `takes` workers ask.
    pub open spec fn drained_units(state: QueueState<W>, takes: nat) -> Seq<W>
        decreases takes,
    {
        if takes == 0 {
            Seq::empty()
        } else {
            state.handed_out(QueueEvent::Take) + Self::drained_units(
                state.after(QueueEvent::Take),
                (takes - 1) as nat,
            )
        }
    }
}

/// The queue between the producers and the workers of a pool. It holds any
/// number of units; adding one never waits.
pub struct WorkQueue<W> {
    pending: VecDeque<W>,
    open: bool,
}

impl<W> View for WorkQueue<W> {
    type V = QueueState<W>;

    closed spec fn view(&self) -> QueueState<W> {
        QueueState { pending: self.pending@, open: self.open }
    }
}

impl<W> WorkQueue<W> {
    /// An open queue in which nothing waits.
    pub fn new() -> (q: WorkQueue<W>)
        ensures
            q@ == QueueState::<W>::run(Seq::empty()),
    {
        WorkQueue { pending: VecDeque::new(), open: true }
    }

    /// Hands in a unit of work. A closed queue takes nothing and gives the
    /// unit back.
    pub fn add(&mut self, work: W) -> (refused: Option<W>)
        ensures
            final(self)@ == old(self)@.after(QueueEvent::Add(work)),
            refused == if old(self)@.open {
                None
            } else {
                Some(work)
            },
    {
        if self.open {
            self.pending.push_back(work);
            None
        } else {
            Some(work)
        }
    }

    /// Closes the producer side. What waits stays in the queue for the
    /// workers.
    pub fn close(&mut self)
        ensures
            final(self)@ == old(self)@.after(QueueEvent::Close),
    {
        self.open = false;
    }

    /// Tells a worker what to do next, and takes the unit that it hands out
    /// off the queue.
    pub fn next(&mut self) -> (n: Next<W>)
        ensures
            n == old(self)@.answer(),
            final(self)@ == old(self)@.after(QueueEvent::Take),
    {
        match self.pending.pop_front() {
            Some(work) => {
                assert(final(self)@.pending =~= old(self)@.pending.drop_first());
                Next::Work(work)
            },
            None => if self.open {
                Next::Wait
            } else {
                Next::Exit
            },
        }
    }

    /// How many units wait.
    pub fn len(&self) -> (n: usize)
        ensures
            n == self@.pending.len(),
    {
        self.pending.len()
    }

    /// Whether the producer side is still open.
    pub fn is_open(&self) -> (b: bool)
        ensures
            b == self@.open,
    {
        self.open
    }
}

} // verus!
