//! The batch fetcher: a resumable pull-based enumerator of admissible
//! triples.  Each call delivers the next `vec_len` admissible triples from
//! the recorded start position and advances that position, deactivating
//! itself when the enumeration cannot fill a whole batch any more.
//!
//! [`mt_get_trips`] is the shared variant: several consumers share one
//! fetcher behind a mutex with non-blocking acquisition; a held lock yields
//! an empty batch and the caller simply retries.

use vstd::prelude::*;
use std::sync::Arc;
use std::sync::Mutex;
use crate::cursor::{raw_stream, cursor_from_raw, lemma_raw_after, lemma_seq_split};
use crate::filter::is_admissible;

verus! {

/// A resumable enumerator over the candidate space below `max`, starting at
/// the raw position `start` = (n, y, z), meaning x = n * n, next y, next z.
pub struct TripFetcher {
    pub max: u64,
    pub start: (usize, usize, usize),
    pub active: bool,
}

/// Why a fetch returned nothing.
#[derive(Debug, PartialEq, Eq, Structural)]
pub enum TFError {
    /// A start component exceeds the ceiling.
    InvalidStart,
    /// The fetcher was deactivated by an earlier short delivery.
    NotActive,
    /// No admissible triple remains from the start position.
    EmptyReturn,
}

impl TripFetcher {
    /// A start component exceeds the ceiling; such a fetcher refuses to run.
    pub open spec fn bad_start(self) -> bool {
        ||| self.start.0 as int > self.max as int
        ||| self.start.1 as int > self.max as int
        ||| self.start.2 as int > self.max as int
    }

    /// The admissible triples still ahead of the recorded start position.
    pub open spec fn stream(self) -> Seq<(u64, u64, u64)> {
        raw_stream(self.max, self.start.0 as u64, self.start.1 as u64, self.start.2 as u64)
    }

    pub fn new(max: u64, start: (usize, usize, usize)) -> (f: TripFetcher)
        ensures
            f.max == max,
            f.start == start,
            f.active,
    {
        TripFetcher { max, start, active: true }
    }

    /// Delivers the next `vec_len` admissible triples and advances `start`
    /// to just past the last one, per [`fetch_spec`].  A ceiling too large
    /// for the usize start tuple to record a resumption position is refused
    /// and deactivates the fetcher, like an out-of-range start.
    pub fn get_triplets_vec(&mut self, vec_len: usize) -> (r: Result<
        Vec<(u64, u64, u64)>,
        TFError,
    >)
        ensures
            fetch_spec(*old(self), *final(self), vec_len, r),
    {
        let max = self.max;
        let st = self.start;
        if st.0 as u64 > max || st.1 as u64 > max || st.2 as u64 > max {
            self.active = false;
            return Err(TFError::InvalidStart);
        }
        if !self.active {
            return Err(TFError::NotActive);
        }
        if max > usize::MAX as u64 {
            self.active = false;
            return Err(TFError::InvalidStart);
        }
        let ghost s = self.stream();
        let mut cur = cursor_from_raw(max, st.0 as u64, st.1 as u64, st.2 as u64);
        let mut out: Vec<(u64, u64, u64)> = Vec::new();
        let mut last_n: u64 = 0;
        while !cur.fin && out.len() < vec_len
            invariant
                cur.wf(max),
                s == out@ + cur.rest(max),
                out@.len() <= vec_len as int,
                out@.len() > 0 ==> {
                    &&& raw_stream(max, last_n, out@.last().1, (out@.last().2 + 1) as u64)
                        == cur.rest(max)
                    &&& (last_n as int) * (last_n as int) == out@.last().0 as int
                    &&& out@.last().0 < max
                    &&& out@.last().1 < out@.last().0
                    &&& (out@.last().2 as int) + 1 <= out@.last().0 as int
                },
                max == old(self).max,
            decreases
                (if cur.fin { 0int } else { 1int }),
                0x1_0000_0000int - cur.n as int,
                (cur.n as int) * (cur.n as int) - cur.y as int,
                (cur.n as int) * (cur.n as int) - cur.y as int - cur.z as int,
        {
            let ghost pre = cur;
            let n_now = cur.n;
            let c = cur.step(max);
            if is_admissible(c) {
                out.push(c);
                last_n = n_now;
                proof {
                    lemma_raw_after(pre, cur, max);
                    assert(s =~= out@ + cur.rest(max));
                }
            } else {
                proof {
                    assert(s =~= out@ + cur.rest(max));
                }
            }
        }
        if out.len() == 0 {
            return Err(TFError::EmptyReturn);
        }
        let last = out[out.len() - 1];
        proof {
            lemma_seq_split(out@, cur.rest(max));
            assert(out@.last() == last);
            assert(last_n as int <= (last_n as int) * (last_n as int)) by (nonlinear_arith)
                requires
                    1 <= last_n as int || last_n == 0,
            ;
            assert(last_n as int <= usize::MAX as int);
            assert(last.1 as int <= usize::MAX as int);
            assert(last.2 as int + 1 <= usize::MAX as int);
        }
        if out.len() != vec_len {
            self.active = false;
        }
        self.start = (last_n as usize, last.1 as usize, (last.2 + 1) as usize);
        Ok(out)
    }
}

/// The complete behavior of a fetch: an out-of-range start deactivates and
/// is refused; an inactive fetcher is refused; a ceiling that does not fit
/// in usize (so no resumption position could be recorded) deactivates and
/// is refused; otherwise the next min(vec_len, available) admissible
/// triples are delivered in enumeration order, the start position resumes
/// just past the last one, and the fetcher stays active exactly when the
/// batch is full.
pub open spec fn fetch_spec(
    pre: TripFetcher,
    post: TripFetcher,
    vec_len: usize,
    r: Result<Vec<(u64, u64, u64)>, TFError>,
) -> bool {
    &&& post.max == pre.max
    &&& if pre.bad_start() {
        &&& r == Err::<Vec<(u64, u64, u64)>, TFError>(TFError::InvalidStart)
        &&& !post.active
        &&& post.start == pre.start
    } else if !pre.active {
        &&& r == Err::<Vec<(u64, u64, u64)>, TFError>(TFError::NotActive)
        &&& post == pre
    } else if pre.max as int > usize::MAX as int {
        &&& r == Err::<Vec<(u64, u64, u64)>, TFError>(TFError::InvalidStart)
        &&& !post.active
        &&& post.start == pre.start
    } else {
        let s = pre.stream();
        let k: int = if vec_len as int <= s.len() {
            vec_len as int
        } else {
            s.len() as int
        };
        if k == 0 {
            &&& r == Err::<Vec<(u64, u64, u64)>, TFError>(TFError::EmptyReturn)
            &&& post == pre
        } else {
            match r {
                Ok(v) => {
                    &&& v@ == s.take(k)
                    &&& v@.len() == k
                    &&& post.active == (k == vec_len as int)
                    &&& post.stream() == s.skip(k)
                    &&& (post.start.0 as int) * (post.start.0 as int) == v@.last().0 as int
                    &&& post.start.1 as int == v@.last().1 as int
                    &&& post.start.2 as int == v@.last().2 as int + 1
                },
                Err(_) => false,
            }
        }
    }
}

/// One shared fetch: refuses an inactive fetcher without touching it,
/// otherwise pulls the next batch.
pub fn fetch_step(f: &mut TripFetcher, request_len: usize) -> (r: Result<
    Vec<(u64, u64, u64)>,
    TFError,
>)
    ensures
        !old(f).active ==> r == Err::<Vec<(u64, u64, u64)>, TFError>(TFError::NotActive)
            && *final(f) == *old(f),
        old(f).active ==> fetch_spec(*old(f), *final(f), request_len, r),
        match r {
            Ok(v) => v@.len() <= request_len as int,
            Err(_) => true,
        },
{
    if !f.active {
        return Err(TFError::NotActive);
    }
    f.get_triplets_vec(request_len)
}

#[verifier::external_type_specification]
#[verifier::external_body]
#[verifier::reject_recursive_types(T)]
pub struct ExMutex<T: ?Sized>(Mutex<T>);

/// Relies on std::sync::Mutex::try_lock: when the lock is free, the shared
/// fetcher (if any) is moved out of the slot; when the lock is held or
/// poisoned, or the slot is empty because another consumer is mid-fetch,
/// nothing comes out.  Which of these happens depends on the other
/// threads, so nothing is promised of the result.
#[verifier::external_body]
fn try_take(am_tf: &Arc<Mutex<Option<TripFetcher>>>) -> (r: Option<TripFetcher>) {
    match am_tf.try_lock() {
        Ok(mut guard) => guard.take(),
        Err(_) => None,
    }
}

/// Relies on std::sync::Mutex::lock: waits for the lock and puts the
/// fetcher back into the shared slot for the next consumer.  If the lock
/// is poisoned (a consumer panicked) the fetcher is lost and later fetches
/// find the slot unavailable.
#[verifier::external_body]
fn put_back(am_tf: &Arc<Mutex<Option<TripFetcher>>>, f: TripFetcher) {
    if let Ok(mut guard) = am_tf.lock() {
        *guard = Some(f);
    }
}

/// One shared fetch against some fetcher state: an inactive fetcher is
/// refused untouched; otherwise the result is a [`fetch_spec`] transition.
pub open spec fn shared_outcome(
    pre: TripFetcher,
    post: TripFetcher,
    request_len: usize,
    r: Result<Vec<(u64, u64, u64)>, TFError>,
) -> bool {
    if !pre.active {
        r == Err::<Vec<(u64, u64, u64)>, TFError>(TFError::NotActive) && post == pre
    } else {
        fetch_spec(pre, post, request_len, r)
    }
}

/// Shared-fetcher variant: takes the fetcher from the slot without
/// blocking; an unavailable slot yields an empty successful batch so the
/// caller can retry.  Every other outcome is one verified fetch of the
/// fetcher that was shared: in particular a non-empty batch is admissible,
/// ordered, and a prefix of that fetcher's remaining stream.
pub fn mt_get_trips(am_tf: &Arc<Mutex<Option<TripFetcher>>>, request_len: usize) -> (r:
    Result<Vec<(u64, u64, u64)>, TFError>)
    ensures
        match r {
            Ok(v) => v@.len() <= request_len as int,
            Err(_) => true,
        },
        (match r {
            Ok(v) => v@.len() > 0,
            Err(_) => true,
        }) ==> exists|pre: TripFetcher, post: TripFetcher|
            #[trigger] shared_outcome(pre, post, request_len, r),
{
    match try_take(am_tf) {
        None => Ok(Vec::new()),
        Some(mut f) => {
            let ghost pre = f;
            let res = fetch_step(&mut f, request_len);
            proof {
                assert(shared_outcome(pre, f, request_len, res));
            }
            put_back(am_tf, f);
            res
        },
    }
}

} // verus!
