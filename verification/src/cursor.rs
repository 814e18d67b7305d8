//! The candidate space and its resumable cursor.
//!
//! Candidates are walked in lexicographic order of (n, y, z): for each n with
//! n * n below the ceiling, x = n * n; for each y below x; for each z below
//! x - y.  The spec functions here give the sequence of *admissible*
//! candidates from any point of that walk, and [`Cursor`] is the executable
//! resumption point, advancing one candidate at a time without ever
//! rewinding.

use vstd::prelude::*;
use crate::filter::adm;

verus! {

/// Admissible triples (x, y, z') for z' in [z, x - y), in order.
pub open spec fn suf_z(x: u64, y: u64, z: u64) -> Seq<(u64, u64, u64)>
    decreases x as int - y as int - z as int,
{
    if (z as int) < x as int - y as int {
        (if adm((x, y, z)) {
            seq![(x, y, z)]
        } else {
            Seq::empty()
        }) + suf_z(x, y, (z + 1) as u64)
    } else {
        Seq::empty()
    }
}

/// Admissible triples of rows y' in [y, x), in order.
pub open spec fn suf_y(x: u64, y: u64) -> Seq<(u64, u64, u64)>
    decreases x as int - y as int,
{
    if (y as int) < x as int {
        suf_z(x, y, 0) + suf_y(x, (y + 1) as u64)
    } else {
        Seq::empty()
    }
}

/// Admissible triples of all blocks n' >= n with n' * n' below the ceiling,
/// in order.
pub open spec fn suf_n(max: u64, n: u64) -> Seq<(u64, u64, u64)>
    decreases 0x1_0000_0000 - n as int,
{
    if n < 0x1_0000_0000u64 && (n as int) * (n as int) < max as int {
        suf_y((n as int * n as int) as u64, 0) + suf_n(max, (n + 1) as u64)
    } else {
        Seq::empty()
    }
}

/// The whole admissible stream below the ceiling, in enumeration order.
pub open spec fn full_stream(max: u64) -> Seq<(u64, u64, u64)> {
    suf_n(max, 0)
}

/// The enumerator's resumption point.  When `fin` is false the next
/// candidate to examine is (n * n, y, z); `fin` means the walk has passed
/// the ceiling.
pub struct Cursor {
    pub n: u64,
    pub y: u64,
    pub z: u64,
    pub fin: bool,
}

impl Cursor {
    /// The position is canonical: the candidate it points at exists.
    pub open spec fn wf(self, max: u64) -> bool {
        !self.fin ==> {
            &&& 1 <= self.n < 0x1_0000_0000u64
            &&& (self.n as int) < max as int
            &&& (self.n as int) * (self.n as int) < max as int
            &&& (self.y as int) < (self.n as int) * (self.n as int)
            &&& (self.z as int) < (self.n as int) * (self.n as int) - self.y as int
        }
    }

    /// The current candidate triple.
    pub open spec fn head(self) -> (u64, u64, u64) {
        ((self.n as int * self.n as int) as u64, self.y, self.z)
    }

    /// The admissible triples not yet walked past.
    pub open spec fn rest(self, max: u64) -> Seq<(u64, u64, u64)> {
        if self.fin {
            Seq::empty()
        } else {
            let x = (self.n as int * self.n as int) as u64;
            suf_z(x, self.y, self.z) + suf_y(x, (self.y + 1) as u64)
                + suf_n(max, (self.n + 1) as u64)
        }
    }

    /// The cursor at the start of the whole walk.
    pub fn start(max: u64) -> (c: Cursor)
        ensures
            c.wf(max),
            c.rest(max) == full_stream(max),
            !c.fin ==> c.n == 1 && c.y == 0 && c.z == 0,
            c.fin == (max <= 1),
    {
        if max > 1 {
            let c = Cursor { n: 1, y: 0, z: 0, fin: false };
            proof {
                assert(suf_y(0, 0) == Seq::<(u64, u64, u64)>::empty());
                assert(full_stream(max) == suf_y(0, 0) + suf_n(max, 1));
                assert(suf_n(max, 1) == suf_y(1, 0) + suf_n(max, 2));
                assert(suf_y(1, 0) == suf_z(1, 0, 0) + suf_y(1, 1));
                assert(c.rest(max) == suf_z(1, 0, 0) + suf_y(1, 1) + suf_n(max, 2));
                assert(c.rest(max) =~= full_stream(max));
            }
            c
        } else {
            let c = Cursor { n: 0, y: 0, z: 0, fin: true };
            proof {
                if max == 1 {
                    assert(suf_y(0, 0) == Seq::<(u64, u64, u64)>::empty());
                    assert(suf_n(max, 1) == Seq::<(u64, u64, u64)>::empty());
                    assert(full_stream(max) =~= Seq::<(u64, u64, u64)>::empty());
                } else {
                    assert(full_stream(max) == Seq::<(u64, u64, u64)>::empty());
                }
            }
            c
        }
    }

    /// Advances past the current candidate, returning it.  The remaining
    /// stream loses exactly that candidate (when admissible) from its front.
    pub fn step(&mut self, max: u64) -> (c: (u64, u64, u64))
        requires
            old(self).wf(max),
            !old(self).fin,
        ensures
            final(self).wf(max),
            c == old(self).head(),
            (c.1 as int + c.2 as int) < (c.0 as int),
            c.0 < max,
            old(self).rest(max) == (if adm(c) {
                seq![c]
            } else {
                Seq::<(u64, u64, u64)>::empty()
            }) + final(self).rest(max),
            !final(self).fin ==> lt_lex(*old(self), *final(self)),
            step_rel(*old(self), *final(self), max),
    {
        let x = self.n * self.n;
        let c = (x, self.y, self.z);
        let ghost pre = *self;
        if self.z + 1 < x - self.y {
            self.z = self.z + 1;
        } else if self.y + 1 < x {
            self.y = self.y + 1;
            self.z = 0;
        } else {
            let n1 = self.n + 1;
            if n1 < 0x1_0000_0000u64 {
                proof {
                    assert((n1 as int) * (n1 as int) < 0x1_0000_0000_0000_0000int)
                        by (nonlinear_arith)
                        requires
                            0 <= (n1 as int) && (n1 as int) < 0x1_0000_0000int,
                    ;
                }
                if n1 * n1 < max {
                    self.n = n1;
                    self.y = 0;
                    self.z = 0;
                } else {
                    self.fin = true;
                }
            } else {
                self.fin = true;
            }
        }
        proof {
            lemma_step_rest(pre, *self, max);
        }
        c
    }
}

/// Strict lexicographic order on cursor positions: the cursor never rewinds.
pub open spec fn lt_lex(a: Cursor, b: Cursor) -> bool {
    ||| a.n < b.n
    ||| (a.n == b.n && a.y < b.y)
    ||| (a.n == b.n && a.y == b.y && a.z < b.z)
}

/// The single-step unfolding of `rest`: stepping the cursor removes exactly
/// the current candidate (kept when admissible) from the front of the
/// remaining stream.
proof fn lemma_step_rest(pre: Cursor, post: Cursor, max: u64)
    requires
        pre.wf(max),
        !pre.fin,
        step_rel(pre, post, max),
    ensures
        post.wf(max),
        pre.rest(max) == (if adm(pre.head()) {
            seq![pre.head()]
        } else {
            Seq::<(u64, u64, u64)>::empty()
        }) + post.rest(max),
{
    let x = (pre.n as int * pre.n as int) as u64;
    let hd: Seq<(u64, u64, u64)> = if adm(pre.head()) {
        seq![pre.head()]
    } else {
        Seq::empty()
    };
    assert(suf_z(x, pre.y, pre.z) == hd + suf_z(x, pre.y, (pre.z + 1) as u64));
    if ((pre.z + 1) as int) < x as int - pre.y as int {
        // stays in the same row
        assert(pre.rest(max) =~= hd + post.rest(max));
    } else {
        assert(suf_z(x, pre.y, (pre.z + 1) as u64) == Seq::<(u64, u64, u64)>::empty());
        if ((pre.y + 1) as int) < x as int {
            // next row of the same block
            assert(suf_y(x, (pre.y + 1) as u64)
                == suf_z(x, (pre.y + 1) as u64, 0) + suf_y(x, (pre.y + 2) as u64));
            assert(pre.rest(max) =~= hd + post.rest(max));
        } else {
            // block exhausted
            assert(suf_y(x, (pre.y + 1) as u64) == Seq::<(u64, u64, u64)>::empty());
            let n1 = (pre.n + 1) as u64;
            if n1 < 0x1_0000_0000u64 && (n1 as int) * (n1 as int) < max as int {
                let x1 = (n1 as int * n1 as int) as u64;
                assert(suf_n(max, n1) == suf_y(x1, 0) + suf_n(max, (n1 + 1) as u64));
                assert(suf_y(x1, 0) == suf_z(x1, 0, 0) + suf_y(x1, 1));
                assert(1 <= n1 as int * n1 as int) by (nonlinear_arith)
                    requires
                        1 <= n1 as int,
                ;
                assert(n1 as int <= n1 as int * n1 as int) by (nonlinear_arith)
                    requires
                        1 <= n1 as int,
                ;
                assert(pre.rest(max) =~= hd + post.rest(max));
            } else {
                assert(suf_n(max, n1) == Seq::<(u64, u64, u64)>::empty());
                assert(pre.rest(max) =~= hd + post.rest(max));
            }
        }
    }
}

/// The admissible stream from a raw, possibly non-canonical resumption
/// point: every candidate at lexicographic position (n, y, z) or later.
pub open spec fn raw_stream(max: u64, n: u64, y: u64, z: u64) -> Seq<(u64, u64, u64)> {
    if !(n < 0x1_0000_0000u64 && (n as int) * (n as int) < max as int) {
        Seq::empty()
    } else {
        let x = ((n as int) * (n as int)) as u64;
        if y as int >= x as int {
            suf_n(max, (n + 1) as u64)
        } else {
            suf_z(x, y, z) + suf_y(x, (y + 1) as u64) + suf_n(max, (n + 1) as u64)
        }
    }
}

/// The canonical cursor for the block after n: position (n + 1, 0, 0), or
/// the end of the walk when that block is already past the ceiling.
fn next_block(max: u64, n: u64) -> (c: Cursor)
    requires
        n < 0x1_0000_0000u64,
    ensures
        c.wf(max),
        c.rest(max) == suf_n(max, (n + 1) as u64),
{
    let n1 = n + 1;
    if n1 < 0x1_0000_0000u64 {
        proof {
            assert((n1 as int) * (n1 as int) < 0x1_0000_0000_0000_0000int)
                by (nonlinear_arith)
                requires
                    0 <= (n1 as int) && (n1 as int) < 0x1_0000_0000int,
            ;
        }
        if n1 * n1 < max {
            let c = Cursor { n: n1, y: 0, z: 0, fin: false };
            proof {
                let x1 = (n1 as int * n1 as int) as u64;
                assert(1 <= n1 as int * n1 as int) by (nonlinear_arith)
                    requires
                        1 <= n1 as int,
                ;
                assert(n1 as int <= n1 as int * n1 as int) by (nonlinear_arith)
                    requires
                        1 <= n1 as int,
                ;
                assert(suf_n(max, n1) == suf_y(x1, 0) + suf_n(max, (n1 + 1) as u64));
                assert(suf_y(x1, 0) == suf_z(x1, 0, 0) + suf_y(x1, 1));
                assert(c.rest(max) =~= suf_n(max, n1));
            }
            c
        } else {
            let c = Cursor { n, y: 0, z: 0, fin: true };
            proof {
                assert(suf_n(max, n1) == Seq::<(u64, u64, u64)>::empty());
            }
            c
        }
    } else {
        let c = Cursor { n, y: 0, z: 0, fin: true };
        proof {
            assert(suf_n(max, n1) == Seq::<(u64, u64, u64)>::empty());
        }
        c
    }
}

/// The canonical cursor for a raw resumption point: its remaining stream is
/// exactly the raw stream from that point.
pub fn cursor_from_raw(max: u64, n: u64, y: u64, z: u64) -> (c: Cursor)
    ensures
        c.wf(max),
        c.rest(max) == raw_stream(max, n, y, z),
{
    if n >= 0x1_0000_0000u64 {
        return Cursor { n, y, z, fin: true };
    }
    proof {
        assert((n as int) * (n as int) < 0x1_0000_0000_0000_0000int) by (nonlinear_arith)
            requires
                0 <= (n as int) && (n as int) < 0x1_0000_0000int,
        ;
    }
    let x = n * n;
    if x >= max {
        return Cursor { n, y, z, fin: true };
    }
    proof {
        assert(n as int <= n as int * n as int || n == 0) by (nonlinear_arith);
    }
    if y >= x {
        let c = next_block(max, n);
        return c;
    }
    if z < x - y {
        let c = Cursor { n, y, z, fin: false };
        return c;
    }
    proof {
        assert(suf_z(x, y, z) == Seq::<(u64, u64, u64)>::empty());
    }
    if y + 1 < x {
        let c = Cursor { n, y: y + 1, z: 0, fin: false };
        proof {
            assert(suf_y(x, (y + 1) as u64)
                == suf_z(x, (y + 1) as u64, 0) + suf_y(x, (y + 2) as u64));
            assert(c.rest(max) =~= raw_stream(max, n, y, z));
        }
        c
    } else {
        let c = next_block(max, n);
        proof {
            assert(suf_y(x, (y + 1) as u64) == Seq::<(u64, u64, u64)>::empty());
            assert(c.rest(max) =~= raw_stream(max, n, y, z));
        }
        c
    }
}

/// Concatenation is left-cancellative on sequences.
pub proof fn lemma_seq_cancel<A>(h: Seq<A>, a: Seq<A>, b: Seq<A>)
    requires
        h + a == h + b,
    ensures
        a == b,
{
    lemma_seq_split(h, a);
    lemma_seq_split(h, b);
    assert((h + a).skip(h.len() as int) == (h + b).skip(h.len() as int));
}

/// Splitting a concatenation at the length of its first part returns the
/// parts.
pub proof fn lemma_seq_split<A>(a: Seq<A>, b: Seq<A>)
    ensures
        (a + b).take(a.len() as int) == a,
        (a + b).skip(a.len() as int) == b,
{
    assert((a + b).take(a.len() as int) =~= a);
    assert((a + b).skip(a.len() as int) =~= b);
}

/// After stepping past the candidate at (n, y, z), the remaining stream is
/// the raw stream from (n, y, z + 1): the resumption point the fetcher
/// records after a delivery.
pub proof fn lemma_raw_after(pre: Cursor, post: Cursor, max: u64)
    requires
        pre.wf(max),
        !pre.fin,
        step_rel(pre, post, max),
    ensures
        raw_stream(max, pre.n, pre.y, (pre.z + 1) as u64) == post.rest(max),
{
    lemma_step_rest(pre, post, max);
    let x = (pre.n as int * pre.n as int) as u64;
    let hd: Seq<(u64, u64, u64)> = if adm(pre.head()) {
        seq![pre.head()]
    } else {
        Seq::empty()
    };
    assert(pre.rest(max) == hd + post.rest(max));
    assert(suf_z(x, pre.y, pre.z) == hd + suf_z(x, pre.y, (pre.z + 1) as u64));
    assert(pre.rest(max) =~= hd + raw_stream(max, pre.n, pre.y, (pre.z + 1) as u64));
    lemma_seq_cancel(hd, raw_stream(max, pre.n, pre.y, (pre.z + 1) as u64), post.rest(max));
}

/// Strict lexicographic order on triples, as the enumeration emits them.
pub open spec fn trip_lt(a: (u64, u64, u64), b: (u64, u64, u64)) -> bool {
    ||| a.0 < b.0
    ||| (a.0 == b.0 && a.1 < b.1)
    ||| (a.0 == b.0 && a.1 == b.1 && a.2 < b.2)
}

/// Every element comes strictly before every later one.
pub open spec fn strictly_ascending(s: Seq<(u64, u64, u64)>) -> bool {
    forall|i: int, j: int| 0 <= i < j < s.len() ==> trip_lt(s[i], s[j])
}

/// Concatenating two ascending runs is ascending when everything on the
/// left comes before everything on the right.
proof fn lemma_asc_concat(a: Seq<(u64, u64, u64)>, b: Seq<(u64, u64, u64)>)
    requires
        strictly_ascending(a),
        strictly_ascending(b),
        forall|i: int, j: int| 0 <= i < a.len() && 0 <= j < b.len()
            ==> trip_lt(a[i], b[j]),
    ensures
        strictly_ascending(a + b),
{
    assert forall|i: int, j: int| 0 <= i < j < (a + b).len()
        implies trip_lt((a + b)[i], (a + b)[j]) by {
        if j < a.len() {
            assert((a + b)[i] == a[i] && (a + b)[j] == a[j]);
        } else if i >= a.len() {
            assert((a + b)[i] == b[i - a.len()] && (a + b)[j] == b[j - a.len()]);
        } else {
            assert((a + b)[i] == a[i] && (a + b)[j] == b[j - a.len()]);
        }
    }
}

/// A z-run is ascending, and all its triples carry the given x and y with
/// z at least the starting value.
proof fn lemma_suf_z_sorted(x: u64, y: u64, z: u64)
    ensures
        strictly_ascending(suf_z(x, y, z)),
        forall|i: int| 0 <= i < suf_z(x, y, z).len()
            ==> (#[trigger] suf_z(x, y, z)[i]).0 == x && suf_z(x, y, z)[i].1 == y
                && z <= suf_z(x, y, z)[i].2,
    decreases x as int - y as int - z as int,
{
    if (z as int) < x as int - y as int {
        lemma_suf_z_sorted(x, y, (z + 1) as u64);
        let h: Seq<(u64, u64, u64)> = if adm((x, y, z)) {
            seq![(x, y, z)]
        } else {
            Seq::empty()
        };
        let t = suf_z(x, y, (z + 1) as u64);
        lemma_asc_concat(h, t);
    }
}

/// A block's rows are ascending, and all their triples carry the given x
/// with y at least the starting row.
proof fn lemma_suf_y_sorted(x: u64, y: u64)
    ensures
        strictly_ascending(suf_y(x, y)),
        forall|i: int| 0 <= i < suf_y(x, y).len()
            ==> (#[trigger] suf_y(x, y)[i]).0 == x && y <= suf_y(x, y)[i].1,
    decreases x as int - y as int,
{
    if (y as int) < x as int {
        lemma_suf_z_sorted(x, y, 0);
        lemma_suf_y_sorted(x, (y + 1) as u64);
        lemma_asc_concat(suf_z(x, y, 0), suf_y(x, (y + 1) as u64));
    }
}

/// The blocks from n on are ascending, and every x in them is at least
/// n squared.
proof fn lemma_suf_n_sorted(max: u64, n: u64)
    ensures
        strictly_ascending(suf_n(max, n)),
        forall|i: int| 0 <= i < suf_n(max, n).len()
            ==> (n as int) * (n as int) <= (#[trigger] suf_n(max, n)[i]).0 as int,
    decreases 0x1_0000_0000 - n as int,
{
    if n < 0x1_0000_0000u64 && (n as int) * (n as int) < max as int {
        let x = (n as int * n as int) as u64;
        lemma_suf_y_sorted(x, 0);
        lemma_suf_n_sorted(max, (n + 1) as u64);
        assert((n as int) * (n as int) < ((n + 1) as int) * ((n + 1) as int))
            by (nonlinear_arith)
            requires
                0 <= n as int,
        ;
        lemma_asc_concat(suf_y(x, 0), suf_n(max, (n + 1) as u64));
    }
}

/// The admissible stream is strictly ascending in lexicographic order: the
/// enumeration never revisits a position.
pub proof fn lemma_stream_ascending(max: u64)
    ensures
        strictly_ascending(full_stream(max)),
{
    lemma_suf_n_sorted(max, 0);
}

/// No triple appears twice in the admissible stream.
pub proof fn lemma_stream_distinct(max: u64)
    ensures
        forall|i: int, j: int| 0 <= i < j < full_stream(max).len()
            ==> full_stream(max)[i] != full_stream(max)[j],
{
    lemma_stream_ascending(max);
    assert forall|i: int, j: int| 0 <= i < j < full_stream(max).len()
        implies full_stream(max)[i] != full_stream(max)[j] by {
        assert(trip_lt(full_stream(max)[i], full_stream(max)[j]));
    }
}

/// How one `step` call may change the cursor.
pub open spec fn step_rel(pre: Cursor, post: Cursor, max: u64) -> bool {
    let x = (pre.n as int * pre.n as int) as u64;
    if ((pre.z + 1) as int) < x as int - pre.y as int {
        post == (Cursor { z: (pre.z + 1) as u64, ..pre })
    } else if ((pre.y + 1) as int) < x as int {
        post == (Cursor { y: (pre.y + 1) as u64, z: 0, ..pre })
    } else if ((pre.n + 1) as int) < 0x1_0000_0000int
        && ((pre.n + 1) as int) * ((pre.n + 1) as int) < max as int {
        post == (Cursor { n: (pre.n + 1) as u64, y: 0, z: 0, ..pre })
    } else {
        post == (Cursor { fin: true, ..pre })
    }
}

} // verus!
