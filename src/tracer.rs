use vstd::prelude::*;

use crate::cell::ResultCell;
use crate::record::{
    arena_ok, in_call_order, lemma_arena_push, lemma_order_append, lemma_order_push, CallError,
    CallHead, CallRecord, Trace,
};

verus! {

/// An open call leg: a record still waiting for its exit event.
pub struct Frame {
    pub head: CallHead,
    pub depth: usize,
    /// Arena indices of the subcalls closed so far, in call order.
    pub calls: Vec<usize>,
    /// Set when this leg tried to open a call below the maximum depth.
    pub depth_exceeded: bool,
    pub entered_at: Ghost<nat>,
}

/// A violation of the hook protocol by whoever drives the tracer.
#[derive(Clone, Copy, Debug, PartialEq, Eq, Structural)]
pub enum TraceError {
    /// An exit arrived with no open call.
    EmptyStack,
    /// The pass was already finalized.
    AlreadyFinalized,
    /// The pass was finalized while calls were still open.
    UnclosedFrames,
    /// Too many calls were opened below the maximum depth to count them.
    NestingOverflow,
}

/// Builds the tree of calls of an inspection pass from enter and exit
/// events, and publishes it once, when the pass is finalized.
pub struct CallTracer {
    max_depth: usize,
    stack: Vec<Frame>,
    records: Vec<CallRecord>,
    roots: Vec<usize>,
    suppressed: u64,
    clock: Ghost<nat>,
    transactions: Ghost<Seq<CallHead>>,
    result: ResultCell<Trace>,
}

/// `f` is a frame just opened for `head` at `depth`, at event `at`.
pub open spec fn fresh_frame(f: Frame, head: CallHead, depth: nat, at: nat) -> bool {
    &&& f.head == head
    &&& f.depth == depth
    &&& f.calls@.len() == 0
    &&& !f.depth_exceeded
    &&& f.entered_at@ == at
}

/// `g` is `f` with the depth-exceeded mark set.
pub open spec fn marked(f: Frame, g: Frame) -> bool {
    &&& g.head == f.head
    &&& g.depth == f.depth
    &&& g.calls@ == f.calls@
    &&& g.depth_exceeded
    &&& g.entered_at == f.entered_at
}

/// `g` is `f` with the closed subcall `idx` appended.
pub open spec fn adopted(f: Frame, g: Frame, idx: usize) -> bool {
    &&& g.head == f.head
    &&& g.depth == f.depth
    &&& g.calls@ == f.calls@.push(idx)
    &&& g.depth_exceeded == f.depth_exceeded
    &&& g.entered_at == f.entered_at
}

/// The error recorded on a leg that closes with `outcome`: a depth-exceeded
/// mark takes precedence over what the interpreter reported.
pub open spec fn closing_error(f: Frame, outcome: Result<Vec<u8>, CallError>) -> Option<
    CallError,
> {
    if f.depth_exceeded {
        Some(CallError::DepthExceeded)
    } else {
        match outcome {
            Ok(_) => None,
            Err(e) => Some(e),
        }
    }
}

/// `r` is the record that closes frame `f` at event `at`.
pub open spec fn closes(
    f: Frame,
    r: CallRecord,
    gas_used: u64,
    outcome: Result<Vec<u8>, CallError>,
    at: nat,
) -> bool {
    &&& r.head == f.head
    &&& r.gas_used == gas_used
    &&& r.output == match outcome {
        Ok(out) => Some(out),
        Err(_) => None::<Vec<u8>>,
    }
    &&& r.error == closing_error(f, outcome)
    &&& r.depth == f.depth
    &&& r.calls@ == f.calls@
    &&& r.entered_at == f.entered_at
    &&& r.exited_at@ == at
}

/// What `on_enter` does: `b` is the tracer `a` after it was handed `head`,
/// and `r` is what the hook returned.
pub open spec fn enter_step(
    a: CallTracer,
    b: CallTracer,
    head: CallHead,
    r: Result<(), TraceError>,
) -> bool {
    &&& b.max_depth() == a.max_depth()
    &&& b.published() == a.published()
    &&& a.is_finalized() ==> r == Err::<(), TraceError>(TraceError::AlreadyFinalized) && b == a
    &&& !a.is_finalized() && a.suppressed() == u64::MAX ==> r == Err::<(), TraceError>(
        TraceError::NestingOverflow,
    ) && b == a
    &&& !a.is_finalized() && a.suppressed() < u64::MAX ==> {
        &&& r is Ok
        &&& b.events() == a.events() + 1
        &&& b.records() == a.records()
        &&& b.roots() == a.roots()
    }
    &&& !a.is_finalized() && 0 < a.suppressed() < u64::MAX ==> {
        &&& b.suppressed() == a.suppressed() + 1
        &&& b.frames() == a.frames()
        &&& b.transactions() == a.transactions()
    }
    &&& !a.is_finalized() && a.suppressed() == 0 && a.frames().len() > a.max_depth() ==> {
        &&& b.suppressed() == 1
        &&& b.frames().len() == a.frames().len()
        &&& b.frames().drop_last() == a.frames().drop_last()
        &&& marked(a.frames().last(), b.frames().last())
        &&& b.transactions() == a.transactions()
    }
    &&& !a.is_finalized() && a.suppressed() == 0 && a.frames().len() <= a.max_depth() ==> {
        &&& b.suppressed() == 0
        &&& b.frames().len() == a.frames().len() + 1
        &&& b.frames().drop_last() == a.frames()
        &&& fresh_frame(b.frames().last(), head, a.frames().len(), a.events())
        &&& b.transactions() == if a.frames().len() == 0 {
            a.transactions().push(head)
        } else {
            a.transactions()
        }
    }
}

/// What `on_exit` does: `b` is the tracer `a` after the innermost call left
/// with `outcome`, and `r` is what the hook returned.
pub open spec fn exit_step(
    a: CallTracer,
    b: CallTracer,
    gas_used: u64,
    outcome: Result<Vec<u8>, CallError>,
    r: Result<(), TraceError>,
) -> bool {
    &&& b.max_depth() == a.max_depth()
    &&& b.published() == a.published()
    &&& a.is_finalized() ==> r == Err::<(), TraceError>(TraceError::AlreadyFinalized) && b == a
    &&& !a.is_finalized() && a.suppressed() > 0 ==> {
        &&& r is Ok
        &&& b.suppressed() == a.suppressed() - 1
        &&& b.events() == a.events() + 1
        &&& b.frames() == a.frames()
        &&& b.records() == a.records()
        &&& b.roots() == a.roots()
        &&& b.transactions() == a.transactions()
    }
    &&& !a.is_finalized() && a.suppressed() == 0 && a.frames().len() == 0 ==> r == Err::<
        (),
        TraceError,
    >(TraceError::EmptyStack) && b == a
    &&& !a.is_finalized() && a.suppressed() == 0 && a.frames().len() > 0 ==> {
        let n = a.frames().len();
        let idx = a.records().len() as usize;
        &&& r is Ok
        &&& b.suppressed() == 0
        &&& b.events() == a.events() + 1
        &&& b.records() == a.records().push(b.records().last())
        &&& closes(a.frames().last(), b.records().last(), gas_used, outcome, a.events())
        &&& b.transactions() == a.transactions()
        &&& b.frames().len() == n - 1
        &&& n == 1 ==> b.roots() == a.roots().push(idx)
        &&& n > 1 ==> {
            &&& b.roots() == a.roots()
            &&& b.frames().take(n - 2) == a.frames().take(n - 2)
            &&& adopted(a.frames()[n - 2], b.frames()[n - 2], idx)
        }
    }
}

/// A finalized pass holds one top-level record per transaction, in the
/// order the transactions came, inside a well-formed trace.
pub proof fn lemma_one_root_per_transaction(t: &CallTracer)
    requires
        t.wf(),
        t.is_finalized(),
    ensures
        t.published().unwrap().well_formed(t.max_depth()),
        t.published().unwrap().roots@.len() == t.transactions().len(),
        forall|k: int|
            0 <= k < t.transactions().len() ==> (#[trigger] t.published().unwrap().records@[t.published().unwrap().roots@[k] as int]).head
                == t.transactions()[k],
{
}

/// A leg that tried to call below the maximum depth closes with the
/// depth-exceeded error, whatever the interpreter reported for it.
pub proof fn lemma_marked_leg_fails(
    f: Frame,
    r: CallRecord,
    gas_used: u64,
    outcome: Result<Vec<u8>, CallError>,
    at: nat,
)
    requires
        closes(f, r, gas_used, outcome, at),
        f.depth_exceeded,
    ensures
        r.error == Some(CallError::DepthExceeded),
{
}

/// While a pass is running, the `j`-th open frame sits at depth `j`, within
/// the maximum; only a frame at the maximum depth can carry the
/// depth-exceeded mark, and it has no subcalls.
pub proof fn lemma_open_frame_depth(t: &CallTracer, j: int)
    requires
        t.wf(),
        !t.is_finalized(),
        0 <= j < t.frames().len(),
    ensures
        t.frames()[j].depth == j,
        t.frames()[j].depth <= t.max_depth(),
        t.frames()[j].depth_exceeded ==> t.frames()[j].depth == t.max_depth(),
        t.frames()[j].depth == t.max_depth() ==> t.frames()[j].calls@.len() == 0,
{
    assert(t.frame_ok(j));
}

impl CallTracer {
    pub closed spec fn max_depth(&self) -> nat {
        self.max_depth as nat
    }

    /// The open frames, outermost first.
    pub closed spec fn frames(&self) -> Seq<Frame> {
        self.stack@
    }

    /// The arena of closed records (emptied into the result on finalization).
    pub closed spec fn records(&self) -> Seq<CallRecord> {
        self.records@
    }

    /// Arena indices of the closed top-level records.
    pub closed spec fn roots(&self) -> Seq<usize> {
        self.roots@
    }

    /// How many calls are open below the maximum depth, untraced.
    pub closed spec fn suppressed(&self) -> nat {
        self.suppressed as nat
    }

    /// How many hook events were accepted.
    pub closed spec fn events(&self) -> nat {
        self.clock@
    }

    /// The heads of the top-level calls seen so far: one per transaction.
    pub closed spec fn transactions(&self) -> Seq<CallHead> {
        self.transactions@
    }

    /// The published trace, once the pass is finalized.
    pub closed spec fn published(&self) -> Option<Trace> {
        self.result@
    }

    pub open spec fn is_finalized(&self) -> bool {
        self.published() is Some
    }

    closed spec fn frame_ok(&self, j: int) -> bool {
        let f = self.stack@[j];
        let rs = self.records@;
        &&& f.depth == j
        &&& f.entered_at@ < self.clock@
        &&& (f.depth == self.max_depth ==> f.calls@.len() == 0)
        &&& (f.depth_exceeded ==> f.depth == self.max_depth)
        &&& forall|k: int|
            0 <= k < f.calls@.len() ==> {
                let c = #[trigger] f.calls@[k];
                &&& 0 <= c < rs.len()
                &&& rs[c as int].depth == j + 1
                &&& f.entered_at@ < rs[c as int].entered_at@
            }
        &&& in_call_order(rs, f.calls@)
        &&& j + 1 < self.stack@.len() ==> {
            &&& f.entered_at@ < self.stack@[j + 1].entered_at@
            &&& f.calls@.len() > 0 ==> rs[f.calls@.last() as int].exited_at@ < self.stack@[j
                + 1].entered_at@
        }
    }

    closed spec fn building_ok(&self) -> bool {
        let rs = self.records@;
        let st = self.stack@;
        &&& arena_ok(rs, self.max_depth as nat)
        &&& forall|i: int| 0 <= i < rs.len() ==> #[trigger] rs[i].exited_at@ < self.clock@
        &&& st.len() <= self.max_depth + 1
        &&& forall|j: int| 0 <= j < st.len() ==> #[trigger] self.frame_ok(j)
        &&& forall|k: int|
            0 <= k < self.roots@.len() ==> {
                &&& 0 <= #[trigger] self.roots@[k] < rs.len()
                &&& rs[self.roots@[k] as int].depth == 0
                &&& rs[self.roots@[k] as int].head == self.transactions@[k]
            }
        &&& in_call_order(rs, self.roots@)
        &&& st.len() > 0 && self.roots@.len() > 0 ==> rs[self.roots@.last() as int].exited_at@
            < st[0].entered_at@
        &&& self.suppressed > 0 ==> st.len() == self.max_depth + 1 && st.last().depth_exceeded
        &&& self.transactions@.len() == self.roots@.len() + if st.len() > 0 {
            1int
        } else {
            0int
        }
        &&& st.len() > 0 ==> st[0].head == self.transactions@.last()
    }

    /// The tracer's invariant.
    pub closed spec fn wf(&self) -> bool {
        match self.result@ {
            None => self.building_ok(),
            Some(t) => {
                &&& t.well_formed(self.max_depth as nat)
                &&& t.roots@.len() == self.transactions@.len()
                &&& forall|k: int|
                    0 <= k < t.roots@.len() ==> (#[trigger] t.records@[t.roots@[k] as int]).head
                        == self.transactions@[k]
            }
        }
    }

    /// A tracer for a pass whose calls may nest `max_depth` levels below a
    /// top-level call.
    pub fn new(max_depth: usize) -> (r: CallTracer)
        ensures
            r.wf(),
            r.max_depth() == max_depth,
            r.frames().len() == 0,
            r.records().len() == 0,
            r.roots().len() == 0,
            r.suppressed() == 0,
            r.events() == 0,
            r.transactions().len() == 0,
            !r.is_finalized(),
    {
        CallTracer {
            max_depth,
            stack: Vec::new(),
            records: Vec::new(),
            roots: Vec::new(),
            suppressed: 0,
            clock: Ghost(0),
            transactions: Ghost(Seq::empty()),
            result: ResultCell::new(),
        }
    }

    /// The nesting limit the tracer was made with.
    pub fn max_depth_limit(&self) -> (r: usize)
        ensures
            r == self.max_depth(),
    {
        self.max_depth
    }

    /// How many calls are open.
    pub fn open_calls(&self) -> (r: usize)
        ensures
            r == self.frames().len(),
    {
        self.stack.len()
    }

    /// Hook: the interpreter enters a call.
    ///
    /// The call opens a frame one level below the innermost open one, or a
    /// new top-level call when none is open. A call that would go below the
    /// maximum depth opens no frame: the innermost frame is marked instead,
    /// and the call and whatever it opens are counted until they exit.
    #[verifier::rlimit(40)]
    pub fn on_enter(&mut self, head: CallHead) -> (r: Result<(), TraceError>)
        requires
            old(self).wf(),
        ensures
            final(self).wf(),
            enter_step(*old(self), *final(self), head, r),
    {
        if self.result.is_set() {
            return Err(TraceError::AlreadyFinalized);
        }
        let ghost pre = *self;
        if self.suppressed > 0 {
            if self.suppressed == u64::MAX {
                return Err(TraceError::NestingOverflow);
            }
            self.suppressed = self.suppressed + 1;
            self.clock = Ghost(self.clock@ + 1);
            assert forall|j: int| 0 <= j < self.stack@.len() implies #[trigger] self.frame_ok(j) by {
                assert(pre.frame_ok(j));
            }
            return Ok(());
        }
        let n = self.stack.len();
        if n > self.max_depth {
            let mut top = self.stack.pop().unwrap();
            top.depth_exceeded = true;
            self.stack.push(top);
            self.suppressed = 1;
            self.clock = Ghost(self.clock@ + 1);
            assert(self.stack@ == pre.stack@.update(n - 1, top));
            assert(self.stack@.drop_last() =~= pre.stack@.drop_last());
            assert forall|j: int| 0 <= j < self.stack@.len() implies #[trigger] self.frame_ok(j) by {
                assert(pre.frame_ok(j));
            }
            return Ok(());
        }
        if n == 0 {
            self.transactions = Ghost(self.transactions@.push(head));
        }
        let frame = Frame {
            head,
            depth: n,
            calls: Vec::new(),
            depth_exceeded: false,
            entered_at: Ghost(self.clock@),
        };
        self.stack.push(frame);
        self.clock = Ghost(self.clock@ + 1);
        assert(self.stack@.drop_last() =~= pre.stack@);
        assert forall|j: int| 0 <= j < self.stack@.len() implies #[trigger] self.frame_ok(j) by {
            if j < n {
                assert(pre.frame_ok(j));
                assert(self.stack@[j] == pre.stack@[j]);
                let f = self.stack@[j];
                if j + 1 == n && f.calls@.len() > 0 {
                    let c = f.calls@[f.calls@.len() - 1];
                    assert(0 <= c < self.records@.len());
                    assert(self.records@[c as int].exited_at@ < pre.clock@);
                }
            }
        }
        Ok(())
    }

    /// Hook: the interpreter leaves the innermost open call.
    ///
    /// The exit of an untraced call below the maximum depth is only counted.
    /// Otherwise the innermost frame closes into a record at the end of the
    /// arena, which becomes the last subcall of the frame around it, or the
    /// next top-level record when it was a top-level call.
    #[verifier::rlimit(40)]
    pub fn on_exit(&mut self, gas_used: u64, outcome: Result<Vec<u8>, CallError>) -> (r: Result<
        (),
        TraceError,
    >)
        requires
            old(self).wf(),
        ensures
            final(self).wf(),
            exit_step(*old(self), *final(self), gas_used, outcome, r),
    {
        if self.result.is_set() {
            return Err(TraceError::AlreadyFinalized);
        }
        if self.suppressed > 0 {
            self.leave_untraced();
            return Ok(());
        }
        if self.stack.len() == 0 {
            return Err(TraceError::EmptyStack);
        }
        self.close_innermost(gas_used, outcome);
        Ok(())
    }

    fn leave_untraced(&mut self)
        requires
            old(self).building_ok(),
            old(self).suppressed > 0,
        ensures
            final(self).building_ok(),
            final(self).suppressed == old(self).suppressed - 1,
            final(self).clock@ == old(self).clock@ + 1,
            final(self).max_depth == old(self).max_depth,
            final(self).stack == old(self).stack,
            final(self).records == old(self).records,
            final(self).roots == old(self).roots,
            final(self).transactions == old(self).transactions,
            final(self).result == old(self).result,
    {
        let ghost pre = *self;
        self.suppressed = self.suppressed - 1;
        self.clock = Ghost(self.clock@ + 1);
        assert forall|j: int| 0 <= j < self.stack@.len() implies #[trigger] self.frame_ok(j) by {
            assert(pre.frame_ok(j));
        }
    }

    #[verifier::rlimit(60)]
    fn close_innermost(&mut self, gas_used: u64, outcome: Result<Vec<u8>, CallError>)
        requires
            old(self).building_ok(),
            old(self).result@ is None,
            old(self).suppressed == 0,
            old(self).stack@.len() > 0,
        ensures
            final(self).building_ok(),
            final(self).result == old(self).result,
            final(self).max_depth == old(self).max_depth,
            final(self).suppressed == 0,
            final(self).clock@ == old(self).clock@ + 1,
            final(self).records@ == old(self).records@.push(final(self).records@.last()),
            closes(
                old(self).stack@.last(),
                final(self).records@.last(),
                gas_used,
                outcome,
                old(self).clock@,
            ),
            final(self).transactions == old(self).transactions,
            final(self).stack@.len() == old(self).stack@.len() - 1,
            old(self).stack@.len() == 1 ==> final(self).roots@ == old(self).roots@.push(
                old(self).records@.len() as usize,
            ),
            old(self).stack@.len() > 1 ==> {
                let n = old(self).stack@.len();
                &&& final(self).roots@ == old(self).roots@
                &&& final(self).stack@.take(n - 2) == old(self).stack@.take(n - 2)
                &&& adopted(
                    old(self).stack@[n - 2],
                    final(self).stack@[n - 2],
                    old(self).records@.len() as usize,
                )
            },
    {
        let ghost pre = *self;
        let n = self.stack.len();
        let frame = self.stack.pop().unwrap();
        assert(pre.frame_ok(n - 1));
        let error = if frame.depth_exceeded {
            Some(CallError::DepthExceeded)
        } else {
            match &outcome {
                Ok(_) => None,
                Err(e) => Some(*e),
            }
        };
        let output = match outcome {
            Ok(out) => Some(out),
            Err(_) => None,
        };
        let idx = self.records.len();
        let record = CallRecord {
            head: frame.head,
            gas_used,
            output,
            error,
            depth: frame.depth,
            calls: frame.calls,
            entered_at: frame.entered_at,
            exited_at: Ghost(self.clock@),
        };
        let ghost rec = record;
        let ghost rs = self.records@;
        proof {
            assert forall|k: int| 0 <= k < rec.calls@.len() implies {
                let c = #[trigger] rec.calls@[k];
                &&& 0 <= c < rs.len()
                &&& rs[c as int].depth == rec.depth + 1
                &&& rec.entered_at@ < rs[c as int].entered_at@
                &&& rs[c as int].exited_at@ < rec.exited_at@
            } by {
                assert(frame.calls@[k] == rec.calls@[k]);
                assert(rs[rec.calls@[k] as int].exited_at@ < pre.clock@);
            }
            lemma_arena_push(rs, rec, self.max_depth as nat);
        }
        self.records.push(record);
        let ghost rs2 = self.records@;
        assert(rs2 == rs.push(rec));
        if self.stack.len() > 0 {
            let mut parent = self.stack.pop().unwrap();
            parent.calls.push(idx);
            self.stack.push(parent);
        } else {
            self.roots.push(idx);
        }
        self.clock = Ghost(self.clock@ + 1);
        proof {
            assert(rs2[idx as int] == rec);
            assert forall|i: int| 0 <= i < rs2.len() implies #[trigger] rs2[i].exited_at@ < self.clock@ by {
                if i < rs.len() {
                    assert(rs2[i] == rs[i]);
                }
            }
            assert forall|j: int| 0 <= j < self.stack@.len() implies #[trigger] self.frame_ok(j) by {
                assert(pre.frame_ok(j));
                let f0 = pre.stack@[j];
                let f = self.stack@[j];
                assert forall|k: int| 0 <= k < f0.calls@.len() implies #[trigger] f0.calls@[k] < rs.len() by {
                }
                lemma_order_push(rs, f0.calls@, rec);
                assert forall|k: int| 0 <= k < f0.calls@.len() implies rs2[f0.calls@[k] as int] == rs[f0.calls@[k] as int] by {
                    assert(f0.calls@[k] < rs.len());
                }
                if j + 2 == n {
                    assert(f.calls@ == f0.calls@.push(idx));
                    assert(pre.frame_ok(j + 1));
                    if f0.calls@.len() > 0 {
                        assert(f0.calls@.last() < rs.len());
                    }
                    lemma_order_append(rs2, f0.calls@, idx);
                    assert forall|k: int| 0 <= k < f.calls@.len() implies {
                        let c = #[trigger] f.calls@[k];
                        &&& 0 <= c < rs2.len()
                        &&& rs2[c as int].depth == j + 1
                        &&& f.entered_at@ < rs2[c as int].entered_at@
                    } by {
                        if k < f0.calls@.len() {
                            assert(f.calls@[k] == f0.calls@[k]);
                        }
                    }
                } else {
                    assert(f == f0);
                    if j + 1 < self.stack@.len() {
                        assert(self.stack@[j + 1].entered_at == pre.stack@[j + 1].entered_at);
                    }
                    if f.calls@.len() > 0 {
                        assert(f0.calls@.last() < rs.len());
                    }
                }
            }
            assert forall|k: int| 0 <= k < pre.roots@.len() implies #[trigger] pre.roots@[k] < rs.len() by {
            }
            lemma_order_push(rs, pre.roots@, rec);
            assert forall|k: int| 0 <= k < pre.roots@.len() implies rs2[pre.roots@[k] as int] == rs[pre.roots@[k] as int] by {
                assert(pre.roots@[k] < rs.len());
            }
            if n == 1 {
                if pre.roots@.len() > 0 {
                    assert(pre.roots@.last() < rs.len());
                }
                lemma_order_append(rs2, pre.roots@, idx);
            } else {
                if pre.roots@.len() > 0 {
                    assert(pre.roots@.last() < rs.len());
                }
                assert(self.stack@[0].entered_at == pre.stack@[0].entered_at);
                assert(self.stack@[0].head == pre.stack@[0].head);
            }
        }
    }

    /// Ends the inspection pass: publishes the records once, when no call is
    /// open. The published trace is well formed and holds one top-level
    /// record per transaction, in the order the transactions came.
    pub fn finalize(&mut self) -> (r: Result<(), TraceError>)
        requires
            old(self).wf(),
        ensures
            final(self).wf(),
            final(self).max_depth() == old(self).max_depth(),
            final(self).transactions() == old(self).transactions(),
            old(self).is_finalized() ==> r == Err::<(), TraceError>(TraceError::AlreadyFinalized)
                && *final(self) == *old(self),
            !old(self).is_finalized() && (old(self).frames().len() > 0 || old(self).suppressed()
                > 0) ==> r == Err::<(), TraceError>(TraceError::UnclosedFrames) && *final(self)
                == *old(self),
            !old(self).is_finalized() && old(self).frames().len() == 0 && old(self).suppressed()
                == 0 ==> {
                &&& r is Ok
                &&& final(self).is_finalized()
                &&& final(self).published().unwrap().records@ == old(self).records()
                &&& final(self).published().unwrap().roots@ == old(self).roots()
            },
            r is Ok ==> {
                let t = final(self).published().unwrap();
                &&& t.well_formed(old(self).max_depth())
                &&& t.roots@.len() == old(self).transactions().len()
                &&& forall|k: int|
                    0 <= k < t.roots@.len() ==> (#[trigger] t.records@[t.roots@[k] as int]).head
                        == old(self).transactions()[k]
            },
    {
        if self.result.is_set() {
            return Err(TraceError::AlreadyFinalized);
        }
        if self.stack.len() > 0 || self.suppressed > 0 {
            return Err(TraceError::UnclosedFrames);
        }
        let mut records: Vec<CallRecord> = Vec::new();
        std::mem::swap(&mut records, &mut self.records);
        let mut roots: Vec<usize> = Vec::new();
        std::mem::swap(&mut roots, &mut self.roots);
        let trace = Trace { records, roots };
        let _ = self.result.set(trace);
        Ok(())
    }

    /// The published trace, or `None` while the pass is not finalized.
    pub fn result(&self) -> (r: Option<&Trace>)
        ensures
            r matches Some(t) ==> self.published() == Some(*t),
            r is None <==> !self.is_finalized(),
    {
        self.result.get()
    }
}

} // verus!
