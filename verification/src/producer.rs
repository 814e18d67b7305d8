//! The bounded-buffer producer: a state machine that walks the candidate
//! space, keeps admissible triples in a FIFO buffer bounded by a capacity,
//! and answers control instructions — pause/resume, batch requests, progress
//! and occupancy queries.
//!
//! The machine is pure state: [`TripGenThread::handle_instruction`] applies
//! one instruction, [`TripGenThread::produce_step`] performs one unit of
//! enumeration or delivery work.  A caller drives it either synchronously
//! (see [`crate::session::TripGenMain`]) or from a background thread fed by
//! channels; the guarantees hold either way because every transition is a
//! verified function of the state alone.

use vstd::prelude::*;
use crate::cursor::{Cursor, full_stream, lt_lex, step_rel};
use crate::filter::{adm, is_admissible};
use crate::oracle::{sq, isqrt};

verus! {

/// Errors of the producer/consumer protocol.
#[derive(Debug, PartialEq, Eq, Structural)]
pub enum TGError {
    /// The response channel yielded nothing (peer gone).
    FailedReceive,
    /// The instruction channel refused the send (peer gone).
    FailedSend,
    /// The session is no longer active.
    NotActive,
    /// Enumeration ended with nothing left to deliver.
    EmptyReturn,
    /// The instruction is not accepted while paused.
    Paused,
    /// Resume was asked of a session that is not paused.
    Why,
}

/// Instructions a consumer sends to the producer.
pub enum TGInst {
    Pause,
    Play,
    Get(usize),
    At,
    BufferedAmt,
}

/// Responses the producer sends back.
#[derive(Debug)]
pub enum TGTReturn {
    /// A data batch, a rejection, or the empty-stream signal.
    Data(Result<Vec<(u64, u64, u64)>, TGError>),
    /// Acknowledgement of Pause/Play.
    EmptyDone,
    /// The final partial batch: enumeration is exhausted.
    Done(Result<Vec<(u64, u64, u64)>, TGError>),
    /// Buffer occupancy.
    Info(Result<usize, TGError>),
}

/// What kind of receive the producer's driver should do next.
#[derive(Debug, PartialEq, Eq, Structural)]
pub enum RecvMode {
    /// Nothing to do until an instruction arrives: block on the channel.
    BlockRecv,
    /// Working through the space: poll opportunistically, never block.
    PollRecv,
    /// A request is being served: keep producing, do not wait.
    NoRecv,
}

/// A triple as the enumerator shapes them: x a positive perfect square
/// below the ceiling, y and z positive with y + z < x, and admissible.
pub open spec fn shaped(t: (u64, u64, u64), max: u64) -> bool {
    &&& t.0 < max
    &&& (t.1 as int) + (t.2 as int) < t.0 as int
    &&& adm(t)
    &&& exists|n: int| 0 <= n && sq(n) == t.0 as int
}

/// `m` is the progress marker derived from the delivered triple `t`:
/// (n, y, z + 1) where t = (n * n, y, z).
pub open spec fn is_marker(m: (u64, u64, u64), t: (u64, u64, u64)) -> bool {
    &&& (m.0 as int) * (m.0 as int) == t.0 as int
    &&& m.1 == t.1
    &&& m.2 as int == t.2 as int + 1
}

/// The producer state machine.
pub struct TripGenThread {
    max: u64,
    buf_size: usize,
    cur: Cursor,
    buf: Vec<(u64, u64, u64)>,
    at: (u64, u64, u64),
    get_amt: usize,
    working: bool,
    paused: bool,
    done_sent: bool,
    delivered: Ghost<Seq<(u64, u64, u64)>>,
}

impl TripGenThread {
    /// The exclusive upper bound on x.
    pub closed spec fn ceiling(self) -> u64 {
        self.max
    }

    /// The buffer capacity.
    pub closed spec fn capacity(self) -> int {
        self.buf_size as int
    }

    /// Every triple delivered so far, in delivery order.
    pub closed spec fn delivered_seq(self) -> Seq<(u64, u64, u64)> {
        self.delivered@
    }

    /// The triples currently buffered, in arrival (delivery) order.
    pub closed spec fn buffered(self) -> Seq<(u64, u64, u64)> {
        self.buf@
    }

    /// The enumerator's position.
    pub closed spec fn cursor_view(self) -> Cursor {
        self.cur
    }

    /// The admissible triples the walk has not yet reached.
    pub open spec fn remaining(self) -> Seq<(u64, u64, u64)> {
        self.cursor_view().rest(self.ceiling())
    }

    pub closed spec fn is_paused(self) -> bool {
        self.paused
    }

    /// A batch request is outstanding.
    pub closed spec fn is_working(self) -> bool {
        self.working
    }

    /// The outstanding request's amount.
    pub closed spec fn req_amount(self) -> int {
        self.get_amt as int
    }

    /// Exhaustion has been reported; the machine is terminal.
    pub closed spec fn is_exhausted(self) -> bool {
        self.done_sent
    }

    /// The progress marker of the last delivered triple.
    pub closed spec fn at_marker(self) -> (u64, u64, u64) {
        self.at
    }

    /// Well-formedness: the cursor is canonical; the buffer respects the
    /// capacity whenever no request is outstanding (and the requested
    /// amount while one is); buffered triples are shaped; and the delivered,
    /// buffered and not-yet-reached triples concatenate to exactly the
    /// admissible stream below the ceiling — no omission, no duplicate.
    pub closed spec fn wf(self) -> bool {
        &&& self.cur.wf(self.max)
        &&& !self.working ==> self.buf@.len() <= self.buf_size as int
        &&& self.working ==> self.buf@.len() <= self.buf_size as int
            || self.buf@.len() <= self.get_amt as int
        &&& forall|i: int| 0 <= i < self.buf@.len() ==> shaped(#[trigger] self.buf@[i], self.max)
        &&& self.delivered@ + self.buf@ + self.cur.rest(self.max) == full_stream(self.max)
        &&& self.done_sent ==> self.cur.fin && !self.working && self.buf@.len() == 0
    }

    /// A fresh producer for ceiling `max` and buffer capacity `buf_size`.
    pub fn new(max: u64, buf_size: usize) -> (t: TripGenThread)
        ensures
            t.wf(),
            t.ceiling() == max,
            t.capacity() == buf_size as int,
            t.delivered_seq() == Seq::<(u64, u64, u64)>::empty(),
            t.buffered() == Seq::<(u64, u64, u64)>::empty(),
            t.remaining() == full_stream(max),
            !t.is_paused(),
            !t.is_working(),
            !t.is_exhausted(),
            t.at_marker() == (0u64, 0u64, 0u64),
    {
        let t = TripGenThread {
            max,
            buf_size,
            cur: Cursor::start(max),
            buf: Vec::new(),
            at: (0, 0, 0),
            get_amt: 0,
            working: false,
            paused: false,
            done_sent: false,
            delivered: Ghost(Seq::empty()),
        };
        proof {
            assert(t.delivered@ + t.buf@ + t.cur.rest(max) =~= full_stream(max));
        }
        t
    }

    /// Applies one instruction.  `None` means no response is owed yet (a
    /// batch request waits for the buffer, and an out-of-place Play is
    /// ignored as the facade never lets one through).
    pub fn handle_instruction(&mut self, inst: TGInst) -> (resp: Option<TGTReturn>)
        requires
            old(self).wf(),
            // requests and responses are strictly paired: at most one
            // request may be in flight at a time
            inst is Get ==> !old(self).is_working(),
        ensures
            final(self).wf(),
            unchanged_core(*old(self), *final(self)),
            old(self).is_exhausted() ==> *final(self) == *old(self)
                && resp == Some(TGTReturn::Data(Err(TGError::NotActive))),
            !old(self).is_exhausted() && old(self).is_paused() ==> match inst {
                TGInst::Play => {
                    &&& !final(self).is_paused()
                    &&& final(self).is_working() == old(self).is_working()
                    &&& final(self).req_amount() == old(self).req_amount()
                    &&& resp == Some(TGTReturn::EmptyDone)
                },
                _ => *final(self) == *old(self)
                    && resp == Some(TGTReturn::Data(Err(TGError::Paused))),
            },
            !old(self).is_exhausted() && !old(self).is_paused() ==> match inst {
                TGInst::Pause => {
                    &&& final(self).is_paused()
                    &&& final(self).is_working() == old(self).is_working()
                    &&& final(self).req_amount() == old(self).req_amount()
                    &&& resp == Some(TGTReturn::EmptyDone)
                },
                TGInst::Play => *final(self) == *old(self) && resp is None,
                TGInst::Get(amt) => {
                    &&& !final(self).is_paused()
                    &&& final(self).is_working()
                    &&& final(self).req_amount() == amt as int
                    &&& resp is None
                },
                TGInst::At => *final(self) == *old(self) && match resp {
                    Some(TGTReturn::Data(Ok(v))) => v@ == seq![old(self).at_marker()],
                    _ => false,
                },
                TGInst::BufferedAmt => *final(self) == *old(self)
                    && resp == Some(TGTReturn::Info(
                        Ok(old(self).buffered().len() as usize),
                    )),
            },
    {
        if self.done_sent {
            return Some(TGTReturn::Data(Err(TGError::NotActive)));
        }
        if self.paused {
            match inst {
                TGInst::Play => {
                    self.paused = false;
                    Some(TGTReturn::EmptyDone)
                },
                _ => Some(TGTReturn::Data(Err(TGError::Paused))),
            }
        } else {
            match inst {
                TGInst::Pause => {
                    self.paused = true;
                    Some(TGTReturn::EmptyDone)
                },
                TGInst::Play => None,
                TGInst::Get(amt) => {
                    self.get_amt = amt;
                    self.working = true;
                    None
                },
                TGInst::At => {
                    let mut v: Vec<(u64, u64, u64)> = Vec::new();
                    v.push(self.at);
                    proof {
                        assert(v@ =~= seq![self.at]);
                    }
                    Some(TGTReturn::Data(Ok(v)))
                },
                TGInst::BufferedAmt => Some(TGTReturn::Info(Ok(self.buf.len()))),
            }
        }
    }

    /// One unit of producer work: deliver a satisfiable request, report
    /// exhaustion on an unsatisfiable one, or walk one candidate into the
    /// buffer.  `None` means no response was produced by this step.
    pub fn produce_step(&mut self) -> (resp: Option<TGTReturn>)
        requires
            old(self).wf(),
            !old(self).is_paused(),
            !old(self).is_exhausted(),
        ensures
            final(self).wf(),
            final(self).ceiling() == old(self).ceiling(),
            final(self).capacity() == old(self).capacity(),
            !final(self).is_paused(),
            // a satisfiable request: deliver exactly the amount, in order
            old(self).is_working() && old(self).buffered().len() >= old(self).req_amount()
                ==> {
                let k = old(self).req_amount();
                match resp {
                    Some(TGTReturn::Data(Ok(batch))) => {
                        &&& batch@ == old(self).buffered().take(k)
                        &&& final(self).buffered() == old(self).buffered().skip(k)
                        &&& final(self).delivered_seq() == old(self).delivered_seq()
                            + batch@
                        &&& final(self).remaining() == old(self).remaining()
                        &&& final(self).cursor_view() == old(self).cursor_view()
                        &&& !final(self).is_working()
                        &&& !final(self).is_exhausted()
                        &&& k > 0 ==> is_marker(final(self).at_marker(), batch@.last())
                        &&& k == 0 ==> final(self).at_marker() == old(self).at_marker()
                    },
                    _ => false,
                }
            },
            // an unsatisfiable request at exhaustion: final partial batch,
            // or the empty-stream signal; either way the machine is terminal
            old(self).is_working() && old(self).buffered().len() < old(self).req_amount()
                && old(self).cursor_view().fin ==> {
                &&& final(self).is_exhausted()
                &&& !final(self).is_working()
                &&& final(self).buffered() == Seq::<(u64, u64, u64)>::empty()
                &&& if old(self).buffered().len() > 0 {
                    match resp {
                        Some(TGTReturn::Done(Ok(batch))) => {
                            &&& batch@ == old(self).buffered()
                            &&& final(self).delivered_seq() == old(self).delivered_seq()
                                + batch@
                            &&& is_marker(final(self).at_marker(), batch@.last())
                        },
                        _ => false,
                    }
                } else {
                    &&& resp == Some(TGTReturn::Data(Err(TGError::EmptyReturn)))
                    &&& final(self).delivered_seq() == old(self).delivered_seq()
                    &&& final(self).at_marker() == old(self).at_marker()
                }
            },
            // otherwise, when the walk can move: one candidate examined
            !old(self).cursor_view().fin && (old(self).is_working()
                && old(self).buffered().len() < old(self).req_amount()
                || !old(self).is_working()
                    && old(self).buffered().len() < old(self).capacity()) ==> {
                &&& resp is None
                &&& step_rel(old(self).cursor_view(), final(self).cursor_view(),
                    old(self).ceiling())
                &&& final(self).delivered_seq() == old(self).delivered_seq()
                &&& final(self).is_working() == old(self).is_working()
                &&& final(self).req_amount() == old(self).req_amount()
                &&& final(self).at_marker() == old(self).at_marker()
                &&& !final(self).is_exhausted()
                &&& final(self).buffered() == old(self).buffered()
                    + (if adm(old(self).cursor_view().head()) {
                        seq![old(self).cursor_view().head()]
                    } else {
                        Seq::<(u64, u64, u64)>::empty()
                    })
            },
            // idle with nothing to do: wait for an instruction
            !old(self).is_working() && (old(self).cursor_view().fin
                || old(self).buffered().len() >= old(self).capacity()) ==> resp is None
                && *final(self) == *old(self),
            // every response-free step while a request is outstanding moves
            // the cursor forward
            resp is None && old(self).is_working() ==> (!old(self).cursor_view().fin
                && final(self).cursor_view().fin)
                || lt_lex(old(self).cursor_view(), final(self).cursor_view()),
    {
        if self.working && self.buf.len() >= self.get_amt {
            let amt = self.get_amt;
            let ghost pre_buf = self.buf@;
            let batch = split_front(&mut self.buf, amt);
            self.working = false;
            if amt > 0 {
                let last = batch[amt - 1];
                proof {
                    assert(pre_buf.take(amt as int)[amt - 1] == pre_buf[amt - 1]);
                    assert(shaped(last, self.max));
                }
                self.at = marker_for(last);
            }
            self.delivered = Ghost(self.delivered@ + batch@);
            proof {
                assert(batch@ + self.buf@ =~= pre_buf);
                assert(self.delivered@ + self.buf@ + self.cur.rest(self.max)
                    =~= full_stream(self.max));
            }
            Some(TGTReturn::Data(Ok(batch)))
        } else if self.cur.fin {
            if self.working {
                if self.buf.len() > 0 {
                    let len = self.buf.len();
                    let ghost pre_buf = self.buf@;
                    let batch = split_front(&mut self.buf, len);
                    let last = batch[len - 1];
                    proof {
                        assert(pre_buf.take(len as int) =~= pre_buf);
                        assert(pre_buf.take(len as int)[len - 1] == pre_buf[len - 1]);
                        assert(shaped(last, self.max));
                    }
                    self.at = marker_for(last);
                    self.working = false;
                    self.done_sent = true;
                    self.delivered = Ghost(self.delivered@ + batch@);
                    proof {
                        assert(self.buf@ =~= Seq::<(u64, u64, u64)>::empty());
                        assert(self.delivered@ + self.buf@ + self.cur.rest(self.max)
                            =~= full_stream(self.max));
                    }
                    Some(TGTReturn::Done(Ok(batch)))
                } else {
                    self.working = false;
                    self.done_sent = true;
                    Some(TGTReturn::Data(Err(TGError::EmptyReturn)))
                }
            } else {
                None
            }
        } else if self.working || self.buf.len() < self.buf_size {
            let ghost pre = self.cur;
            let max = self.max;
            let c = self.cur.step(max);
            if is_admissible(c) {
                proof {
                    assert(sq(pre.n as int) == c.0 as int);
                    assert(shaped(c, max));
                }
                self.buf.push(c);
            }
            proof {
                assert(self.delivered@ + self.buf@ + self.cur.rest(self.max)
                    =~= full_stream(self.max));
            }
            None
        } else {
            None
        }
    }

    /// How the producer's driver should receive next: block while paused,
    /// exhausted, or idle with nothing to produce; poll while filling; do
    /// not wait while a request is outstanding.
    pub fn wants_instruction(&self) -> (m: RecvMode)
        ensures
            (self.is_paused() || self.is_exhausted() || (!self.is_working()
                && (self.cursor_view().fin || self.buffered().len() >= self.capacity())))
                ==> m == RecvMode::BlockRecv,
            !self.is_paused() && !self.is_exhausted() && self.is_working()
                ==> m == RecvMode::NoRecv,
            !self.is_paused() && !self.is_exhausted() && !self.is_working()
                && !self.cursor_view().fin && self.buffered().len() < self.capacity()
                ==> m == RecvMode::PollRecv,
    {
        if self.paused || self.done_sent {
            RecvMode::BlockRecv
        } else if self.working {
            RecvMode::NoRecv
        } else if self.cur.fin || self.buf.len() >= self.buf_size {
            RecvMode::BlockRecv
        } else {
            RecvMode::PollRecv
        }
    }
}

/// Everything an instruction cannot touch: the enumeration state, the
/// buffer, the delivery history, the marker, and the configuration.
pub open spec fn unchanged_core(a: TripGenThread, b: TripGenThread) -> bool {
    &&& b.ceiling() == a.ceiling()
    &&& b.capacity() == a.capacity()
    &&& b.cursor_view() == a.cursor_view()
    &&& b.buffered() == a.buffered()
    &&& b.delivered_seq() == a.delivered_seq()
    &&& b.remaining() == a.remaining()
    &&& b.at_marker() == a.at_marker()
    &&& b.is_exhausted() == a.is_exhausted()
}

/// The progress marker (n, y, z + 1) of a delivered triple (n * n, y, z).
fn marker_for(t: (u64, u64, u64)) -> (m: (u64, u64, u64))
    requires
        exists|n: int| 0 <= n && sq(n) == t.0 as int,
        (t.2 as int) + 1 <= u64::MAX as int,
    ensures
        is_marker(m, t),
{
    let root = isqrt(t.0);
    proof {
        let n = choose|n: int| 0 <= n && sq(n) == t.0 as int;
        assert(root as int == n) by (nonlinear_arith)
            requires
                0 <= n,
                n * n == t.0 as int,
                (root as int) * (root as int) <= t.0 as int,
                (t.0 as int) < (root as int + 1) * (root as int + 1),
                0 <= root as int,
        ;
    }
    (root, t.1, t.2 + 1)
}

/// Removes the first `k` elements of `v` in order and returns them,
/// leaving the rest in order.
fn split_front(v: &mut Vec<(u64, u64, u64)>, k: usize) -> (out: Vec<(u64, u64, u64)>)
    requires
        k <= old(v)@.len(),
    ensures
        out@ == old(v)@.take(k as int),
        final(v)@ == old(v)@.skip(k as int),
{
    let mut out: Vec<(u64, u64, u64)> = Vec::new();
    let mut i: usize = 0;
    while i < k
        invariant
            i <= k <= v@.len(),
            v@ == old(v)@,
            out@ == old(v)@.take(i as int),
        decreases k - i,
    {
        out.push(v[i]);
        proof {
            assert(out@ =~= old(v)@.take(i as int + 1));
        }
        i = i + 1;
    }
    let mut rest: Vec<(u64, u64, u64)> = Vec::new();
    let mut j: usize = k;
    while j < v.len()
        invariant
            k <= j <= v@.len(),
            v@ == old(v)@,
            rest@ == old(v)@.subrange(k as int, j as int),
        decreases v@.len() - j,
    {
        rest.push(v[j]);
        proof {
            assert(rest@ =~= old(v)@.subrange(k as int, j as int + 1));
        }
        j = j + 1;
    }
    proof {
        assert(rest@ =~= old(v)@.skip(k as int));
    }
    *v = rest;
    out
}

/// No triple is skipped and none is duplicated: at every well-formed state,
/// the triples delivered so far, then those buffered, then those the walk
/// has not yet reached, concatenate to exactly the admissible stream below
/// the ceiling, in enumeration order.
pub proof fn lemma_stream_exact(t: TripGenThread)
    requires
        t.wf(),
    ensures
        t.delivered_seq() + t.buffered() + t.remaining() == full_stream(t.ceiling()),
{
}

/// Whenever no request is outstanding — every point at which an occupancy
/// query can be answered — the buffer holds at most the configured
/// capacity.
pub proof fn lemma_occupancy_bounded(t: TripGenThread)
    requires
        t.wf(),
        !t.is_working(),
    ensures
        t.buffered().len() <= t.capacity(),
{
}

/// Once exhaustion has been reported, the delivered batches concatenate to
/// exactly the whole admissible stream below the ceiling — and by
/// [`crate::cursor::lemma_stream_distinct`] that stream holds no triple
/// twice, so every admissible triple was delivered exactly once.
pub proof fn lemma_exhausted_complete(t: TripGenThread)
    requires
        t.wf(),
        t.is_exhausted(),
    ensures
        t.delivered_seq() == full_stream(t.ceiling()),
{
    assert(t.delivered_seq() =~= t.delivered_seq() + t.buffered() + t.remaining());
}

} // verus!
