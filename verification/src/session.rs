//! The consumer-facing session facade.  It validates local session state
//! (active, paused), drives the producer, and interprets its responses:
//! pause/resume with acknowledgements, blocking batch retrieval with
//! exhaustion handling, progress and buffer-occupancy queries.
//!
//! The facade and the producer are both pure state machines, so a session
//! here drives the producer directly; a deployment may instead run the
//! producer behind channels on its own thread, with the same guarantees,
//! since every transition is a function of the state alone.

use vstd::prelude::*;
use crate::cursor::lemma_seq_cancel;
use crate::producer::{
    TGError, TGInst, TGTReturn, TripGenThread, is_marker, unchanged_core,
    lemma_stream_exact, lemma_occupancy_bounded,
};

verus! {

/// The consumer's handle on a producer session: its progress mirror and the
/// local active/paused flags that gate every operation.
pub struct TripGenMain {
    pub at: (u64, u64, u64),
    pub active: bool,
    pub paused: bool,
}

impl TripGenMain {
    /// The facade agrees with the producer it drives: no request is in
    /// flight between operations, the pause flags mirror each other, and an
    /// active session has not seen exhaustion reported.
    pub open spec fn consistent(self, t: TripGenThread) -> bool {
        &&& t.wf()
        &&& !t.is_working()
        &&& self.paused == t.is_paused()
        &&& self.active ==> !t.is_exhausted()
    }

    /// A fresh session handle.
    pub fn new() -> (m: TripGenMain)
        ensures
            m.active,
            !m.paused,
            m.at == (0u64, 0u64, 0u64),
    {
        TripGenMain { at: (0, 0, 0), active: true, paused: false }
    }

    /// Suspends the producer.  Fails with NotActive on a dead session and
    /// with Paused when already paused; otherwise the producer acknowledges
    /// and only the pause flags change.
    pub fn pause(&mut self, tg: &mut TripGenThread) -> (r: Result<bool, TGError>)
        requires
            old(self).consistent(*old(tg)),
        ensures
            final(self).consistent(*final(tg)),
            final(self).active == old(self).active,
            final(self).at == old(self).at,
            !old(self).active ==> r == Err::<bool, TGError>(TGError::NotActive)
                && *final(self) == *old(self) && *final(tg) == *old(tg),
            old(self).active && old(self).paused ==> r == Err::<bool, TGError>(
                TGError::Paused,
            ) && *final(self) == *old(self) && *final(tg) == *old(tg),
            old(self).active && !old(self).paused ==> {
                &&& r == Ok::<bool, TGError>(true)
                &&& final(self).paused
                &&& unchanged_core(*old(tg), *final(tg))
                &&& final(tg).is_paused()
            },
    {
        if !self.active {
            return Err(TGError::NotActive);
        }
        if self.paused {
            return Err(TGError::Paused);
        }
        let resp = tg.handle_instruction(TGInst::Pause);
        match resp {
            Some(TGTReturn::EmptyDone) => {
                self.paused = true;
                Ok(true)
            },
            _ => Err(TGError::FailedReceive),
        }
    }

    /// Resumes a paused producer.  Fails with NotActive on a dead session
    /// and with Why when not paused; otherwise the producer acknowledges
    /// and only the pause flags change.
    pub fn play(&mut self, tg: &mut TripGenThread) -> (r: Result<bool, TGError>)
        requires
            old(self).consistent(*old(tg)),
        ensures
            final(self).consistent(*final(tg)),
            final(self).active == old(self).active,
            final(self).at == old(self).at,
            !old(self).active ==> r == Err::<bool, TGError>(TGError::NotActive)
                && *final(self) == *old(self) && *final(tg) == *old(tg),
            old(self).active && !old(self).paused ==> r == Err::<bool, TGError>(
                TGError::Why,
            ) && *final(self) == *old(self) && *final(tg) == *old(tg),
            old(self).active && old(self).paused ==> {
                &&& r == Ok::<bool, TGError>(true)
                &&& !final(self).paused
                &&& unchanged_core(*old(tg), *final(tg))
                &&& !final(tg).is_paused()
                &&& final(tg).is_working() == old(tg).is_working()
                &&& final(tg).req_amount() == old(tg).req_amount()
            },
    {
        if !self.active {
            return Err(TGError::NotActive);
        }
        if !self.paused {
            return Err(TGError::Why);
        }
        let resp = tg.handle_instruction(TGInst::Play);
        match resp {
            Some(TGTReturn::EmptyDone) => {
                self.paused = false;
                Ok(true)
            },
            _ => Err(TGError::FailedReceive),
        }
    }

    /// Requests the next `req_len` admissible triples.  Rejected while
    /// inactive or paused.  When enough of the stream remains the full
    /// batch comes back in enumeration order; when the ceiling cuts the
    /// stream short, whatever remains is delivered as a successful final
    /// batch and the session deactivates; when nothing remains the session
    /// deactivates with EmptyReturn.
    pub fn get_data(&mut self, tg: &mut TripGenThread, req_len: usize) -> (r: Result<
        Vec<(u64, u64, u64)>,
        TGError,
    >)
        requires
            old(self).consistent(*old(tg)),
        ensures
            final(self).consistent(*final(tg)),
            final(self).paused == old(self).paused,
            final(self).at == old(self).at,
            !old(self).active ==> r == Err::<Vec<(u64, u64, u64)>, TGError>(
                TGError::NotActive,
            ) && *final(self) == *old(self) && *final(tg) == *old(tg),
            old(self).active && old(self).paused ==> r == Err::<
                Vec<(u64, u64, u64)>,
                TGError,
            >(TGError::Paused) && *final(self) == *old(self) && *final(tg) == *old(tg),
            old(self).active && !old(self).paused ==> {
                let avail = old(tg).buffered() + old(tg).remaining();
                &&& final(tg).ceiling() == old(tg).ceiling()
                &&& final(tg).capacity() == old(tg).capacity()
                &&& if avail.len() >= req_len as int {
                    match r {
                        Ok(v) => {
                            &&& v@ == avail.take(req_len as int)
                            &&& v@.len() == req_len as int
                            &&& final(tg).delivered_seq() == old(tg).delivered_seq()
                                + v@
                            &&& final(self).active
                            &&& req_len > 0 ==> is_marker(final(tg).at_marker(),
                                v@.last())
                            &&& req_len == 0 ==> final(tg).at_marker()
                                == old(tg).at_marker()
                        },
                        Err(_) => false,
                    }
                } else if avail.len() > 0 {
                    match r {
                        Ok(v) => {
                            &&& v@ == avail
                            &&& final(tg).delivered_seq() == old(tg).delivered_seq()
                                + v@
                            &&& !final(self).active
                            &&& final(tg).is_exhausted()
                            &&& is_marker(final(tg).at_marker(), v@.last())
                        },
                        Err(_) => false,
                    }
                } else {
                    &&& r == Err::<Vec<(u64, u64, u64)>, TGError>(TGError::EmptyReturn)
                    &&& !final(self).active
                    &&& final(tg).is_exhausted()
                    &&& final(tg).delivered_seq() == old(tg).delivered_seq()
                }
            },
    {
        if !self.active {
            return Err(TGError::NotActive);
        }
        if self.paused {
            return Err(TGError::Paused);
        }
        let ghost d0 = tg.delivered_seq();
        let ghost avail = tg.buffered() + tg.remaining();
        let resp0 = tg.handle_instruction(TGInst::Get(req_len));
        proof {
            assert(resp0 is None);
        }
        loop
            invariant
                tg.wf(),
                tg.is_working(),
                !tg.is_paused(),
                !tg.is_exhausted(),
                tg.req_amount() == req_len as int,
                tg.delivered_seq() == d0,
                tg.buffered() + tg.remaining() == avail,
                d0 == old(tg).delivered_seq(),
                avail == old(tg).buffered() + old(tg).remaining(),
                tg.ceiling() == old(tg).ceiling(),
                tg.capacity() == old(tg).capacity(),
                tg.at_marker() == old(tg).at_marker(),
                self.active,
                !self.paused,
                old(self).active,
                !old(self).paused,
                self.at == old(self).at,
            decreases
                (if tg.cursor_view().fin { 0int } else { 1int }),
                0x1_0000_0000int - tg.cursor_view().n as int,
                (tg.cursor_view().n as int) * (tg.cursor_view().n as int)
                    - tg.cursor_view().y as int,
                (tg.cursor_view().n as int) * (tg.cursor_view().n as int)
                    - tg.cursor_view().y as int - tg.cursor_view().z as int,
        {
            let ghost b_pre = tg.buffered();
            let ghost r_pre = tg.remaining();
            proof {
                lemma_stream_exact(*tg);
            }
            let resp = tg.produce_step();
            proof {
                if resp is None {
                    lemma_stream_exact(*tg);
                    assert(tg.delivered_seq() + tg.buffered() + tg.remaining()
                        =~= d0 + (tg.buffered() + tg.remaining()));
                    assert(d0 + b_pre + r_pre =~= d0 + (b_pre + r_pre));
                    lemma_seq_cancel(
                        d0,
                        tg.buffered() + tg.remaining(),
                        b_pre + r_pre,
                    );
                }
            }
            match resp {
                None => {},
                Some(TGTReturn::Data(Ok(v))) => {
                    proof {
                        assert(b_pre.len() >= req_len as int);
                        assert(v@ =~= avail.take(req_len as int));
                    }
                    return Ok(v);
                },
                Some(TGTReturn::Done(Ok(v))) => {
                    self.active = false;
                    proof {
                        assert(r_pre =~= Seq::<(u64, u64, u64)>::empty());
                        assert(v@ =~= avail);
                    }
                    return Ok(v);
                },
                Some(TGTReturn::Data(Err(_))) => {
                    self.active = false;
                    proof {
                        assert(avail =~= Seq::<(u64, u64, u64)>::empty());
                    }
                    return Err(TGError::EmptyReturn);
                },
                Some(_) => {
                    return Err(TGError::FailedReceive);
                },
            }
        }
    }

    /// Reports the progress marker of the last delivered triple.  Fails
    /// with NotActive on a dead session; while paused the producer rejects
    /// the query.
    pub fn progress(&self, tg: &mut TripGenThread) -> (r: Result<(u64, u64, u64), TGError>)
        requires
            self.consistent(*old(tg)),
        ensures
            self.consistent(*final(tg)),
            !self.active ==> r == Err::<(u64, u64, u64), TGError>(TGError::NotActive)
                && *final(tg) == *old(tg),
            self.active && self.paused ==> r == Err::<(u64, u64, u64), TGError>(
                TGError::Paused,
            ) && *final(tg) == *old(tg),
            self.active && !self.paused ==> r == Ok::<(u64, u64, u64), TGError>(
                old(tg).at_marker(),
            ) && *final(tg) == *old(tg),
    {
        if !self.active {
            return Err(TGError::NotActive);
        }
        let resp = tg.handle_instruction(TGInst::At);
        match resp {
            Some(TGTReturn::Data(Ok(v))) => Ok(v[0]),
            Some(TGTReturn::Data(Err(e))) => Err(e),
            _ => Err(TGError::FailedReceive),
        }
    }

    /// Reports the buffer occupancy, which never exceeds the configured
    /// capacity.  Fails with NotActive on a dead session; while paused the
    /// producer rejects the query.
    pub fn query_buffer_size(&mut self, tg: &mut TripGenThread) -> (r: Result<
        usize,
        TGError,
    >)
        requires
            old(self).consistent(*old(tg)),
        ensures
            *final(self) == *old(self),
            final(self).consistent(*final(tg)),
            !old(self).active ==> r == Err::<usize, TGError>(TGError::NotActive)
                && *final(tg) == *old(tg),
            old(self).active && old(self).paused ==> r == Err::<usize, TGError>(
                TGError::Paused,
            ) && *final(tg) == *old(tg),
            old(self).active && !old(self).paused ==> {
                &&& r == Ok::<usize, TGError>(old(tg).buffered().len() as usize)
                &&& old(tg).buffered().len() <= old(tg).capacity()
                &&& *final(tg) == *old(tg)
            },
    {
        if !self.active {
            return Err(TGError::NotActive);
        }
        proof {
            lemma_occupancy_bounded(*tg);
        }
        let resp = tg.handle_instruction(TGInst::BufferedAmt);
        match resp {
            Some(TGTReturn::Info(Ok(amt))) => Ok(amt),
            Some(TGTReturn::Data(Err(e))) => Err(e),
            _ => Err(TGError::FailedReceive),
        }
    }
}

/// A pause/resume round trip restores the producer exactly: its cursor,
/// buffer, delivery history, marker and outstanding request are what they
/// were before the pause, so the next batch request delivers the very
/// triples it would have delivered without the round trip (get_data's
/// result is a function of the buffered and remaining streams alone).
pub proof fn lemma_pause_play_round_trip(
    before: TripGenThread,
    after_pause: TripGenThread,
    after_play: TripGenThread,
)
    requires
        !before.is_paused(),
        unchanged_core(before, after_pause),
        after_pause.is_paused(),
        after_pause.is_working() == before.is_working(),
        after_pause.req_amount() == before.req_amount(),
        unchanged_core(after_pause, after_play),
        !after_play.is_paused(),
        after_play.is_working() == after_pause.is_working(),
        after_play.req_amount() == after_pause.req_amount(),
    ensures
        unchanged_core(before, after_play),
        after_play.is_paused() == before.is_paused(),
        after_play.is_working() == before.is_working(),
        after_play.req_amount() == before.req_amount(),
        after_play.buffered() + after_play.remaining() == before.buffered()
            + before.remaining(),
{
}

} // verus!
