use vstd::prelude::*;

use crate::record::{CallError, CallHead, CallKind};
use crate::tracer::{enter_step, exit_step, CallTracer, TraceError};

verus! {

/// What an event log keeps of one hook event.
#[derive(Clone, Copy, Debug, PartialEq, Eq, Structural)]
pub enum HookMark {
    /// A call of the given kind was entered.
    Enter(CallKind),
    /// The innermost call exited; `true` when it returned normally.
    Exit(bool),
}

pub open spec fn exit_mark(outcome: Result<Vec<u8>, CallError>) -> HookMark {
    HookMark::Exit(outcome is Ok)
}

/// An observer that keeps the order and kind of every hook event it sees.
pub struct EventLog {
    marks: Vec<HookMark>,
}

impl EventLog {
    pub closed spec fn view(&self) -> Seq<HookMark> {
        self.marks@
    }

    pub fn new() -> (r: EventLog)
        ensures
            r@.len() == 0,
    {
        EventLog { marks: Vec::new() }
    }

    pub fn on_enter(&mut self, head: &CallHead)
        ensures
            final(self)@ == old(self)@.push(HookMark::Enter(head.kind)),
    {
        self.marks.push(HookMark::Enter(head.kind));
    }

    pub fn on_exit(&mut self, outcome: &Result<Vec<u8>, CallError>)
        ensures
            final(self)@ == old(self)@.push(exit_mark(*outcome)),
    {
        let ok = outcome.is_ok();
        self.marks.push(HookMark::Exit(ok));
    }

    /// The events seen so far, in the order they came.
    pub fn marks(&self) -> (r: &Vec<HookMark>)
        ensures
            r@ == self@,
    {
        &self.marks
    }
}

/// One observer attached to an inspection pass.
pub enum Observer {
    Calls(CallTracer),
    Log(EventLog),
}

impl Observer {
    pub open spec fn wf(self) -> bool {
        match self {
            Observer::Calls(t) => t.wf(),
            Observer::Log(_) => true,
        }
    }

    /// `next` is this observer after it saw the enter event of `head`, to
    /// which it answered `r`.
    pub open spec fn entered(self, next: Observer, head: CallHead, r: Result<(), TraceError>) -> bool {
        match (self, next) {
            (Observer::Calls(a), Observer::Calls(b)) => exists|h: CallHead|
                h.same_as(head) && #[trigger] enter_step(a, b, h, r),
            (Observer::Log(a), Observer::Log(b)) => b@ == a@.push(HookMark::Enter(head.kind))
                && r is Ok,
            _ => false,
        }
    }

    /// `next` is this observer after it saw an exit event, to which it
    /// answered `r`.
    pub open spec fn exited(
        self,
        next: Observer,
        gas_used: u64,
        outcome: Result<Vec<u8>, CallError>,
        r: Result<(), TraceError>,
    ) -> bool {
        match (self, next) {
            (Observer::Calls(a), Observer::Calls(b)) => exists|o: Result<Vec<u8>, CallError>|
                same_outcome(o, outcome) && #[trigger] exit_step(a, b, gas_used, o, r),
            (Observer::Log(a), Observer::Log(b)) => b@ == a@.push(exit_mark(outcome)) && r is Ok,
            _ => false,
        }
    }

    pub fn on_enter(&mut self, head: &CallHead) -> (r: Result<(), TraceError>)
        requires
            old(self).wf(),
        ensures
            final(self).wf(),
            old(self).entered(*final(self), *head, r),
    {
        let ghost mut wit: Option<CallHead> = None;
        let r = match self {
            Observer::Calls(t) => {
                let h = head.duplicate();
                proof {
                    wit = Some(h);
                }
                t.on_enter(h)
            },
            Observer::Log(l) => {
                l.on_enter(head);
                Ok(())
            },
        };
        proof {
            if *self is Calls {
                let a = old(self)->Calls_0;
                let b = (*self)->Calls_0;
                assert(wit.unwrap().same_as(*head) && enter_step(a, b, wit.unwrap(), r));
            }
        }
        r
    }

    pub fn on_exit(&mut self, gas_used: u64, outcome: &Result<Vec<u8>, CallError>) -> (r: Result<
        (),
        TraceError,
    >)
        requires
            old(self).wf(),
        ensures
            final(self).wf(),
            old(self).exited(*final(self), gas_used, *outcome, r),
    {
        let ghost mut wit: Option<Result<Vec<u8>, CallError>> = None;
        let r = match self {
            Observer::Calls(t) => {
                let o = copy_outcome(outcome);
                proof {
                    wit = Some(o);
                }
                t.on_exit(gas_used, o)
            },
            Observer::Log(l) => {
                l.on_exit(outcome);
                Ok(())
            },
        };
        proof {
            if *self is Calls {
                let a = old(self)->Calls_0;
                let b = (*self)->Calls_0;
                assert(same_outcome(wit.unwrap(), *outcome) && exit_step(
                    a,
                    b,
                    gas_used,
                    wit.unwrap(),
                    r,
                ));
            }
        }
        r
    }
}

/// Two exit outcomes carry the same bytes or the same error.
pub open spec fn same_outcome(a: Result<Vec<u8>, CallError>, b: Result<Vec<u8>, CallError>) -> bool {
    match (a, b) {
        (Ok(x), Ok(y)) => x@ == y@,
        (Err(x), Err(y)) => x == y,
        _ => false,
    }
}

fn copy_outcome(outcome: &Result<Vec<u8>, CallError>) -> (r: Result<Vec<u8>, CallError>)
    ensures
        same_outcome(r, *outcome),
{
    match outcome {
        Ok(out) => Ok(out.clone()),
        Err(e) => Err(*e),
    }
}

/// The observers attached to one inspection pass, in registration order.
/// Each hook event goes to every observer, in that order; none sees another.
pub struct Observers {
    list: Vec<Observer>,
}

impl Observers {
    pub closed spec fn view(&self) -> Seq<Observer> {
        self.list@
    }

    /// Every attached observer is well formed.
    pub closed spec fn wf(&self) -> bool {
        forall|i: int| 0 <= i < self.list@.len() ==> (#[trigger] self.list@[i]).wf()
    }

    pub fn new() -> (r: Observers)
        ensures
            r@.len() == 0,
            r.wf(),
    {
        Observers { list: Vec::new() }
    }

    /// Attaches `o` after the observers already there.
    pub fn register(&mut self, o: Observer)
        requires
            old(self).wf(),
            o.wf(),
        ensures
            final(self)@ == old(self)@.push(o),
            final(self).wf(),
    {
        self.list.push(o);
    }

    /// Detaches all observers, in registration order.
    pub fn into_list(self) -> (r: Vec<Observer>)
        requires
            self.wf(),
        ensures
            r@ == self@,
            forall|i: int| 0 <= i < r@.len() ==> (#[trigger] r@[i]).wf(),
    {
        self.list
    }

    pub fn len(&self) -> (r: usize)
        ensures
            r == self@.len(),
    {
        self.list.len()
    }

    pub fn get(&self, i: usize) -> (r: &Observer)
        requires
            i < self@.len(),
        ensures
            *r == self@[i as int],
    {
        &self.list[i]
    }

    /// Delivers an enter event to every observer; the `i`-th answer is the
    /// `i`-th observer's.
    pub fn on_enter(&mut self, head: &CallHead) -> (r: Vec<Result<(), TraceError>>)
        requires
            old(self).wf(),
        ensures
            final(self).wf(),
            final(self)@.len() == old(self)@.len(),
            r@.len() == old(self)@.len(),
            forall|i: int|
                0 <= i < r@.len() ==> old(self)@[i].entered(#[trigger] final(self)@[i], *head, r@[i]),
    {
        let n = self.list.len();
        let mut answers: Vec<Result<(), TraceError>> = Vec::new();
        let mut i: usize = 0;
        while i < n
            invariant
                self.list@.len() == n,
                n == old(self).list@.len(),
                0 <= i <= n,
                answers@.len() == i,
                forall|k: int| 0 <= k < n ==> (#[trigger] self.list@[k]).wf(),
                forall|k: int|
                    0 <= k < i ==> old(self).list@[k].entered(
                        #[trigger] self.list@[k],
                        *head,
                        answers@[k],
                    ),
                forall|k: int| i <= k < n ==> #[trigger] self.list@[k] == old(self).list@[k],
            decreases n - i,
        {
            let a = self.list[i].on_enter(head);
            answers.push(a);
            i = i + 1;
        }
        answers
    }

    /// Delivers an exit event to every observer; the `i`-th answer is the
    /// `i`-th observer's.
    pub fn on_exit(&mut self, gas_used: u64, outcome: &Result<Vec<u8>, CallError>) -> (r: Vec<
        Result<(), TraceError>,
    >)
        requires
            old(self).wf(),
        ensures
            final(self).wf(),
            final(self)@.len() == old(self)@.len(),
            r@.len() == old(self)@.len(),
            forall|i: int|
                0 <= i < r@.len() ==> old(self)@[i].exited(
                    #[trigger] final(self)@[i],
                    gas_used,
                    *outcome,
                    r@[i],
                ),
    {
        let n = self.list.len();
        let mut answers: Vec<Result<(), TraceError>> = Vec::new();
        let mut i: usize = 0;
        while i < n
            invariant
                self.list@.len() == n,
                n == old(self).list@.len(),
                0 <= i <= n,
                answers@.len() == i,
                forall|k: int| 0 <= k < n ==> (#[trigger] self.list@[k]).wf(),
                forall|k: int|
                    0 <= k < i ==> old(self).list@[k].exited(
                        #[trigger] self.list@[k],
                        gas_used,
                        *outcome,
                        answers@[k],
                    ),
                forall|k: int| i <= k < n ==> #[trigger] self.list@[k] == old(self).list@[k],
            decreases n - i,
        {
            let a = self.list[i].on_exit(gas_used, outcome);
            answers.push(a);
            i = i + 1;
        }
        answers
    }
}

/// Two event logs attached to the same pass see the same event: each grows
/// by the same single mark, so logs that agreed before agree after.
pub proof fn lemma_logs_agree_on_enter(
    a: Observer,
    a2: Observer,
    b: Observer,
    b2: Observer,
    head: CallHead,
    ra: Result<(), TraceError>,
    rb: Result<(), TraceError>,
)
    requires
        a is Log,
        b is Log,
        a->Log_0@ == b->Log_0@,
        a.entered(a2, head, ra),
        b.entered(b2, head, rb),
    ensures
        a2 is Log && b2 is Log,
        a2->Log_0@ == b2->Log_0@,
        a2->Log_0@.len() == a->Log_0@.len() + 1,
{
}

/// The exit counterpart of `lemma_logs_agree_on_enter`.
pub proof fn lemma_logs_agree_on_exit(
    a: Observer,
    a2: Observer,
    b: Observer,
    b2: Observer,
    gas_used: u64,
    outcome: Result<Vec<u8>, CallError>,
    ra: Result<(), TraceError>,
    rb: Result<(), TraceError>,
)
    requires
        a is Log,
        b is Log,
        a->Log_0@ == b->Log_0@,
        a.exited(a2, gas_used, outcome, ra),
        b.exited(b2, gas_used, outcome, rb),
    ensures
        a2 is Log && b2 is Log,
        a2->Log_0@ == b2->Log_0@,
        a2->Log_0@.len() == a->Log_0@.len() + 1,
{
}

} // verus!
