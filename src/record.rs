use vstd::prelude::*;

verus! {

/// The calling convention used to enter a callee.
#[derive(Clone, Copy, Debug, PartialEq, Eq, Structural)]
pub enum CallKind {
    Call,
    StaticCall,
    DelegateCall,
    Create,
}

/// Why a call leg failed.
#[derive(Clone, Copy, Debug, PartialEq, Eq, Structural)]
pub enum CallError {
    /// The callee reverted.
    Revert,
    /// The callee ran out of gas or another resource.
    OutOfGas,
    /// The leg tried to open a call below the maximum nesting depth.
    DepthExceeded,
}

/// A 20-byte account address.
#[derive(Clone, Copy, Debug, PartialEq, Eq)]
pub struct Address {
    pub bytes: [u8; 20],
}

/// What is known of a call leg when it is entered.
#[derive(Debug)]
pub struct CallHead {
    pub kind: CallKind,
    pub from: Address,
    pub to: Address,
    pub value: u128,
    pub gas_limit: u64,
    pub input: Vec<u8>,
}

impl CallHead {
    /// `self` and `o` describe the same call: equal fields, equal input bytes.
    pub open spec fn same_as(&self, o: CallHead) -> bool {
        &&& self.kind == o.kind
        &&& self.from == o.from
        &&& self.to == o.to
        &&& self.value == o.value
        &&& self.gas_limit == o.gas_limit
        &&& self.input@ == o.input@
    }

    /// A copy of the head, for a second observer of the same call.
    pub fn duplicate(&self) -> (r: CallHead)
        ensures
            r.same_as(*self),
    {
        CallHead {
            kind: self.kind,
            from: self.from,
            to: self.to,
            value: self.value,
            gas_limit: self.gas_limit,
            input: self.input.clone(),
        }
    }
}

/// One closed call leg. Its subcalls are indices into the arena of the
/// `Trace` that holds it, in the order in which they were entered.
pub struct CallRecord {
    pub head: CallHead,
    pub gas_used: u64,
    /// Data returned by the callee; absent when it failed.
    pub output: Option<Vec<u8>>,
    pub error: Option<CallError>,
    /// Distance from the top-level record of its transaction.
    pub depth: usize,
    pub calls: Vec<usize>,
    /// Position, in the stream of hook events, of the leg's enter event.
    pub entered_at: Ghost<nat>,
    /// Position, in the stream of hook events, of the leg's exit event.
    pub exited_at: Ghost<nat>,
}

/// The finished result of an inspection pass: an arena of closed records
/// and the top-level records, one per transaction, in submission order.
pub struct Trace {
    pub records: Vec<CallRecord>,
    pub roots: Vec<usize>,
}

impl CallRecord {
    /// The `k`-th subcall of this record lies inside it: a child of the next
    /// depth, entered after and exited before its parent.
    pub open spec fn child_ok(self, arena: Seq<CallRecord>, k: int) -> bool {
        let c = self.calls@[k];
        &&& 0 <= c < arena.len()
        &&& arena[c as int].depth == self.depth + 1
        &&& self.entered_at@ < arena[c as int].entered_at@
        &&& arena[c as int].exited_at@ < self.exited_at@
    }
}

/// Consecutive entries of `ids` are disjoint in time, in call order.
pub open spec fn in_call_order(arena: Seq<CallRecord>, ids: Seq<usize>) -> bool {
    forall|k: int|
        0 <= k && k + 1 < ids.len() ==> #[trigger] arena[ids[k] as int].exited_at@ < arena[ids[k
            + 1] as int].entered_at@
}

/// The arena invariant: every record is well nested inside its parent, its
/// depth is one more than its parent's and at most `max_depth`, and a record
/// at the maximum depth has no subcalls.
pub open spec fn arena_ok(arena: Seq<CallRecord>, max_depth: nat) -> bool {
    forall|i: int|
        0 <= i < arena.len() ==> {
            let r = #[trigger] arena[i];
            &&& r.depth <= max_depth
            &&& r.entered_at@ < r.exited_at@
            &&& (r.depth == max_depth ==> r.calls@.len() == 0)
            &&& (forall|k: int| 0 <= k < r.calls@.len() ==> #[trigger] r.calls@[k] < i)
            &&& (forall|k: int| 0 <= k < r.calls@.len() ==> #[trigger] r.child_ok(arena, k))
            &&& in_call_order(arena, r.calls@)
        }
}

/// Appending a record keeps an ordered index list ordered.
pub proof fn lemma_order_push(arena: Seq<CallRecord>, ids: Seq<usize>, r: CallRecord)
    requires
        in_call_order(arena, ids),
        forall|k: int| 0 <= k < ids.len() ==> #[trigger] ids[k] < arena.len(),
    ensures
        in_call_order(arena.push(r), ids),
{
    assert forall|k: int| 0 <= k && k + 1 < ids.len() implies #[trigger] arena.push(
        r,
    )[ids[k] as int].exited_at@ < arena.push(r)[ids[k + 1] as int].entered_at@ by {
        assert(ids[k] < arena.len());
        assert(ids[k + 1] < arena.len());
        assert(arena[ids[k] as int].exited_at@ < arena[ids[k + 1] as int].entered_at@);
    }
}

/// A call that starts after the last one of an ordered list ends extends it.
pub proof fn lemma_order_append(arena: Seq<CallRecord>, ids: Seq<usize>, x: usize)
    requires
        in_call_order(arena, ids),
        ids.len() > 0 ==> arena[ids.last() as int].exited_at@ < arena[x as int].entered_at@,
    ensures
        in_call_order(arena, ids.push(x)),
{
    let ids2 = ids.push(x);
    assert forall|k: int| 0 <= k && k + 1 < ids2.len() implies #[trigger] arena[ids2[k] as int].exited_at@
        < arena[ids2[k + 1] as int].entered_at@ by {
        if k + 1 < ids.len() {
            assert(arena[ids[k] as int].exited_at@ < arena[ids[k + 1] as int].entered_at@);
        }
    }
}

/// Appending a record that is well nested over earlier ones keeps the arena
/// invariant.
pub proof fn lemma_arena_push(arena: Seq<CallRecord>, r: CallRecord, max_depth: nat)
    requires
        arena_ok(arena, max_depth),
        r.depth <= max_depth,
        r.entered_at@ < r.exited_at@,
        r.depth == max_depth ==> r.calls@.len() == 0,
        forall|k: int|
            0 <= k < r.calls@.len() ==> {
                let c = #[trigger] r.calls@[k];
                &&& 0 <= c < arena.len()
                &&& arena[c as int].depth == r.depth + 1
                &&& r.entered_at@ < arena[c as int].entered_at@
                &&& arena[c as int].exited_at@ < r.exited_at@
            },
        in_call_order(arena, r.calls@),
    ensures
        arena_ok(arena.push(r), max_depth),
{
    let a2 = arena.push(r);
    assert forall|i: int| 0 <= i < a2.len() implies {
        let q = #[trigger] a2[i];
        &&& q.depth <= max_depth
        &&& q.entered_at@ < q.exited_at@
        &&& (q.depth == max_depth ==> q.calls@.len() == 0)
        &&& (forall|k: int| 0 <= k < q.calls@.len() ==> #[trigger] q.calls@[k] < i)
        &&& (forall|k: int| 0 <= k < q.calls@.len() ==> #[trigger] q.child_ok(a2, k))
        &&& in_call_order(a2, q.calls@)
    } by {
        let q = a2[i];
        if i < arena.len() {
            assert(q == arena[i]);
            assert forall|k: int| 0 <= k < q.calls@.len() implies #[trigger] q.child_ok(a2, k) by {
                assert(q.child_ok(arena, k));
                assert(q.calls@[k] < i);
            }
            assert forall|k: int| 0 <= k < q.calls@.len() implies #[trigger] q.calls@[k]
                < arena.len() by {
                assert(q.calls@[k] < i);
            }
            lemma_order_push(arena, q.calls@, r);
        } else {
            assert(q == r);
            assert forall|k: int| 0 <= k < q.calls@.len() implies #[trigger] q.child_ok(a2, k) by {
                assert(r.calls@[k] < arena.len());
            }
            assert forall|k: int| 0 <= k < q.calls@.len() implies #[trigger] q.calls@[k] < i by {
                assert(r.calls@[k] < arena.len());
            }
            lemma_order_push(arena, q.calls@, r);
        }
    }
}

/// Every subcall lies inside its parent's window of hook events: it is
/// entered after its parent is entered, exits before its parent exits, and
/// is entered only after the subcall before it has exited.
pub proof fn lemma_subcall_nested(t: &Trace, max_depth: nat, i: int, k: int)
    requires
        t.well_formed(max_depth),
        0 <= i < t.records@.len(),
        0 <= k < t.records@[i].calls@.len(),
    ensures
        ({
            let p = t.records@[i];
            let c = t.records@[p.calls@[k] as int];
            &&& 0 <= p.calls@[k] < i
            &&& p.entered_at@ < c.entered_at@
            &&& c.entered_at@ < c.exited_at@
            &&& c.exited_at@ < p.exited_at@
            &&& k > 0 ==> t.records@[p.calls@[k - 1] as int].exited_at@ < c.entered_at@
        }),
{
    let p = t.records@[i];
    assert(p.child_ok(t.records@, k));
    assert(p.calls@[k] < i);
    if k > 0 {
        assert(t.records@[p.calls@[k - 1] as int].exited_at@ < t.records@[p.calls@[(k - 1)
            + 1] as int].entered_at@);
    }
}

/// Depth grows by exactly one from a record to each of its subcalls and never
/// passes the maximum; a record at the maximum depth has no subcalls.
pub proof fn lemma_depth_chain(t: &Trace, max_depth: nat, i: int)
    requires
        t.well_formed(max_depth),
        0 <= i < t.records@.len(),
    ensures
        t.records@[i].depth <= max_depth,
        t.records@[i].depth == max_depth ==> t.records@[i].calls@.len() == 0,
        forall|k: int|
            0 <= k < t.records@[i].calls@.len() ==> t.records@[t.records@[i].calls@[k] as int].depth
                == t.records@[i].depth + 1 && #[trigger] t.records@[i].calls@[k] < i,
{
    let p = t.records@[i];
    assert forall|k: int| 0 <= k < p.calls@.len() implies t.records@[p.calls@[k] as int].depth
        == p.depth + 1 && #[trigger] p.calls@[k] < i by {
        assert(p.child_ok(t.records@, k));
    }
}

impl Trace {
    pub open spec fn well_formed(&self, max_depth: nat) -> bool {
        &&& arena_ok(self.records@, max_depth)
        &&& forall|k: int|
            0 <= k < self.roots@.len() ==> {
                &&& 0 <= #[trigger] self.roots@[k] < self.records@.len()
                &&& self.records@[self.roots@[k] as int].depth == 0
            }
        &&& in_call_order(self.records@, self.roots@)
    }

    /// The top-level records, one per transaction.
    pub fn roots(&self) -> (r: &Vec<usize>)
        ensures
            r == &self.roots,
    {
        &self.roots
    }

    /// The record at arena index `i`.
    pub fn record(&self, i: usize) -> (r: &CallRecord)
        requires
            i < self.records@.len(),
        ensures
            r == &self.records@[i as int],
    {
        &self.records[i]
    }

    /// The `k`-th top-level record.
    pub fn root(&self, k: usize) -> (r: &CallRecord)
        requires
            k < self.roots@.len(),
            self.roots@[k as int] < self.records@.len(),
        ensures
            r == &self.records@[self.roots@[k as int] as int],
    {
        &self.records[self.roots[k]]
    }
}

} // verus!
