//! Coordination of a persistent render worker: the latest request wins.
//!
//! The worker owns derivation and visualization state. The coordinator keeps
//! it alive between requests, asks it to cancel superseded work exactly once,
//! and has it recreated only after a transport failure or an unacknowledged
//! cancel. It decides; whoever holds it carries out the actions that it gives
//! back, in their order, and reports what became of them.

use vstd::multiset::Multiset;
use vstd::prelude::*;
use vstd::string::*;

verus! {

/// How long a cancellation may stay unacknowledged.
pub const CANCEL_WATCHDOG_MILLIS: i32 = 1_000;

/// A request for rendering, with what is needed to place its result.
#[derive(Debug, Clone)]
pub struct ClientRequest<W> {
    pub wire: W,
    pub request_id: u64,
    pub view_epoch: u64,
    pub iteration: usize,
}

/// The request that the worker is to run.
#[derive(Debug, Clone)]
pub struct ActiveRequest<W> {
    pub request: ClientRequest<W>,
    /// Whether it has been sent to the worker.
    pub sent: bool,
}

/// A worker that has been started.
#[derive(Debug, Clone, Copy, PartialEq, Eq, Structural)]
pub struct WorkerRun {
    pub worker_id: u64,
    /// Whether it has said that it takes requests.
    pub ready: bool,
}

/// What is to be done.
#[derive(Debug)]
pub enum WorkerAction<W> {
    /// Start a worker under this number and report `spawned` or
    /// `spawn_failed`.
    Spawn { worker_id: u64 },
    /// Send the active request, and report `send_failed` if that fails.
    SendRequest { worker_id: u64, request_id: u64 },
    /// Ask the worker to cancel a request. Set the watchdog if that succeeds,
    /// and report `send_failed` if it fails.
    SendCancel { worker_id: u64, request_id: u64 },
    /// Tell the worker to shut down, if it can be told.
    SendShutdown { worker_id: u64 },
    /// Stop the worker for good.
    Terminate { worker_id: u64 },
    /// Say that the worker takes requests.
    Ready,
    /// Say that a request was cancelled.
    Cancelled { request_id: u64 },
    /// Hand over the result of a request.
    Finished { request: ClientRequest<W> },
    /// Say that a request failed.
    Failed { request: ClientRequest<W>, message: String },
    /// Say that the worker failed while nothing was requested.
    Fatal { message: String },
}

/// At most one request is running and one replacement is waiting. Submitting a
/// third request cancels the older waiting request locally.
#[derive(Debug)]
pub struct Coordinator<W> {
    pub run: Option<WorkerRun>,
    pub active: Option<ActiveRequest<W>>,
    pub pending: Option<ClientRequest<W>>,
    pub cancelling: bool,
    pub next_worker_id: u64,
    pub stopped: bool,
}

pub type Outcome<W> = (Coordinator<W>, Seq<WorkerAction<W>>);

impl<W> Coordinator<W> {
    /// A request waits only behind one that is being cancelled, only a request
    /// can be cancelled, only a ready worker has been sent one, and nothing is
    /// left once the coordinator has stopped.
    pub open spec fn valid(self) -> bool {
        &&& self.pending is Some ==> self.cancelling
        &&& self.cancelling ==> self.active is Some
        &&& self.active matches Some(active) ==> (active.sent ==> self.run is Some
            && self.run->Some_0.ready)
        &&& self.stopped ==> self.active is None && self.pending is None && self.run is None
    }

    /// The worker with this number is the current one.
    pub open spec fn is_current(self, worker_id: u64) -> bool {
        self.run is Some && self.run->Some_0.worker_id == worker_id
    }

    /// The request with this number is the active one.
    pub open spec fn is_active(self, request_id: u64) -> bool {
        self.active is Some && self.active->Some_0.request.request_id == request_id
    }

    /// Send the active request, where a ready worker waits for it.
    pub open spec fn dispatched(self) -> Outcome<W> {
        match (self.run, self.active) {
            (Some(run), Some(active)) => if run.ready && !active.sent {
                (
                    Coordinator {
                        active: Some(ActiveRequest { sent: true, ..active }),
                        ..self
                    },
                    seq![
                        WorkerAction::SendRequest {
                            worker_id: run.worker_id,
                            request_id: active.request.request_id,
                        },
                    ],
                )
            } else {
                (self, Seq::empty())
            },
            _ => (self, Seq::empty()),
        }
    }

    /// Start a worker where there is none, and else send the active request.
    pub open spec fn ensured(self) -> Outcome<W> {
        if self.stopped || self.active is None {
            (self, Seq::empty())
        } else if self.run is None {
            let worker_id = if self.next_worker_id == u64::MAX {
                0
            } else {
                (self.next_worker_id + 1) as u64
            };
            (
                Coordinator { next_worker_id: worker_id, ..self },
                seq![WorkerAction::Spawn { worker_id }],
            )
        } else {
            self.dispatched()
        }
    }

    /// The active request gives way to the one that waits.
    pub open spec fn promoted(self) -> Coordinator<W> {
        Coordinator {
            active: match self.pending {
                Some(request) => if self.stopped {
                    None
                } else {
                    Some(ActiveRequest { request, sent: false })
                },
                None => None,
            },
            pending: if self.stopped {
                self.pending
            } else {
                None
            },
            cancelling: false,
            ..self
        }
    }

    /// The active request is answered, and the next one goes ahead.
    pub open spec fn answered_with(self, action: WorkerAction<W>) -> Outcome<W> {
        let (next, actions) = self.promoted().ensured();
        (next, seq![action] + actions)
    }

    /// A request is cancelled without asking the worker.
    pub open spec fn cancelled_locally(self, request_id: u64) -> Outcome<W> {
        if self.is_active(request_id) {
            self.answered_with(WorkerAction::Cancelled { request_id })
        } else {
            (self, Seq::empty())
        }
    }

    /// The active request is to be cancelled: the worker is asked, unless it
    /// has not been sent the request.
    pub open spec fn cancel_begun(self, request_id: u64) -> Outcome<W> {
        if !self.is_active(request_id) {
            (self, Seq::empty())
        } else if self.active->Some_0.sent && self.run is Some {
            (
                self,
                seq![
                    WorkerAction::SendCancel { worker_id: self.run->Some_0.worker_id, request_id },
                ],
            )
        } else {
            self.cancelled_locally(request_id)
        }
    }

    pub open spec fn submitted(self, request: ClientRequest<W>) -> Outcome<W> {
        if self.stopped {
            (self, seq![WorkerAction::Cancelled { request_id: request.request_id }])
        } else if self.active is None {
            Coordinator { active: Some(ActiveRequest { request, sent: false }), ..self }.ensured()
        } else {
            let replaced = match self.pending {
                Some(old) => seq![WorkerAction::Cancelled { request_id: old.request_id }],
                None => Seq::empty(),
            };
            let waiting = Coordinator { pending: Some(request), cancelling: true, ..self };
            if self.cancelling {
                (waiting, replaced)
            } else {
                let (next, actions) = waiting.cancel_begun(
                    self.active->Some_0.request.request_id,
                );
                (next, replaced + actions)
            }
        }
    }

    pub open spec fn current_cancelled(self) -> Outcome<W> {
        let dropped = match self.pending {
            Some(old) => seq![WorkerAction::Cancelled { request_id: old.request_id }],
            None => Seq::empty(),
        };
        let alone = Coordinator { pending: None, ..self };
        if self.cancelling || self.active is None {
            (alone, dropped)
        } else {
            let (next, actions) = Coordinator { cancelling: true, ..alone }.cancel_begun(
                self.active->Some_0.request.request_id,
            );
            (next, dropped + actions)
        }
    }

    pub open spec fn shut_down(self) -> Outcome<W> {
        if self.stopped {
            (self, Seq::empty())
        } else {
            (
                Coordinator {
                    stopped: true,
                    active: None,
                    pending: None,
                    cancelling: false,
                    run: None,
                    ..self
                },
                match self.run {
                    Some(run) => seq![
                        WorkerAction::SendShutdown { worker_id: run.worker_id },
                        WorkerAction::Terminate { worker_id: run.worker_id },
                    ],
                    None => Seq::empty(),
                },
            )
        }
    }

    /// The worker is given up. Its request is answered: as cancelled where that
    /// was asked for, and else as failed.
    pub open spec fn recovered(
        self,
        worker_id: u64,
        expected: Option<u64>,
        message: String,
    ) -> Outcome<W> {
        if !self.is_current(worker_id) || (expected is Some && !self.is_active(
            expected->Some_0,
        )) {
            (self, Seq::empty())
        } else {
            let answer = match self.active {
                Some(active) => if self.cancelling {
                    WorkerAction::Cancelled { request_id: active.request.request_id }
                } else {
                    WorkerAction::Failed { request: active.request, message }
                },
                None => WorkerAction::Fatal { message },
            };
            let (next, actions) = Coordinator { run: None, ..self }.promoted().ensured();
            (next, seq![WorkerAction::Terminate { worker_id }, answer] + actions)
        }
    }

    pub open spec fn spawned_as(self, worker_id: u64) -> Outcome<W> {
        if self.stopped || self.run is Some || worker_id != self.next_worker_id {
            (self, seq![WorkerAction::Terminate { worker_id }])
        } else {
            (
                Coordinator { run: Some(WorkerRun { worker_id, ready: false }), ..self },
                Seq::empty(),
            )
        }
    }

    pub open spec fn failed_without_worker(self, message: String) -> Outcome<W> {
        match self.active {
            None => (self, seq![WorkerAction::Fatal { message }]),
            Some(active) => self.answered_with(
                WorkerAction::Failed { request: active.request, message },
            ),
        }
    }

    pub open spec fn readied(self, worker_id: u64) -> Outcome<W> {
        if self.is_current(worker_id) {
            let (next, actions) = Coordinator {
                run: Some(WorkerRun { worker_id, ready: true }),
                ..self
            }.dispatched();
            (next, seq![WorkerAction::Ready] + actions)
        } else {
            (self, Seq::empty())
        }
    }

    pub open spec fn completed(self, worker_id: u64, request_id: u64) -> Outcome<W> {
        if self.is_current(worker_id) && self.is_active(request_id) {
            self.answered_with(
                WorkerAction::Finished { request: self.active->Some_0.request },
            )
        } else {
            (self, Seq::empty())
        }
    }

    pub open spec fn acknowledged(self, worker_id: u64, request_id: u64) -> Outcome<W> {
        if self.is_current(worker_id) {
            self.cancelled_locally(request_id)
        } else {
            (self, Seq::empty())
        }
    }

    /// The worker still has not acknowledged a cancellation.
    pub open spec fn unresponsive(self, worker_id: u64, request_id: u64) -> bool {
        self.cancelling && self.is_active(request_id) && self.is_current(worker_id)
    }

    pub fn new() -> (r: Coordinator<W>)
        ensures
            r.valid(),
            r.run is None,
            r.active is None,
            r.pending is None,
            !r.cancelling,
            r.next_worker_id == 0,
            !r.stopped,
    {
        Coordinator {
            run: None,
            active: None,
            pending: None,
            cancelling: false,
            next_worker_id: 0,
            stopped: false,
        }
    }

    pub fn worker_is_current(&self, worker_id: u64) -> (r: bool)
        ensures
            r == self.is_current(worker_id),
    {
        match &self.run {
            Some(run) => run.worker_id == worker_id,
            None => false,
        }
    }

    pub fn request_is_active(&self, request_id: u64) -> (r: bool)
        ensures
            r == self.is_active(request_id),
    {
        match &self.active {
            Some(active) => active.request.request_id == request_id,
            None => false,
        }
    }

    /// The request that is to be sent.
    pub fn active_request(&self) -> (r: Option<&ClientRequest<W>>)
        ensures
            match r {
                Some(request) => self.active is Some && *request == self.active->Some_0.request,
                None => self.active is None,
            },
    {
        match &self.active {
            Some(active) => Some(&active.request),
            None => None,
        }
    }

    fn dispatch_active(&mut self, actions: &mut Vec<WorkerAction<W>>)
        requires
            old(self).valid(),
        ensures
            final(self).valid(),
            *final(self) == old(self).dispatched().0,
            final(actions)@ == old(actions)@ + old(self).dispatched().1,
    {
        let ghost before = actions@;
        let ghost start = *self;
        let run: WorkerRun = match &self.run {
            Some(run) => *run,
            None => {
                assert(before + Seq::<WorkerAction<W>>::empty() =~= before);
                return;
            },
        };
        match self.active.take() {
            None => {
                self.active = None;
                assert(*self == start);
                assert(before + Seq::<WorkerAction<W>>::empty() =~= before);
            },
            Some(active) => {
                if run.ready && !active.sent {
                    let request_id: u64 = active.request.request_id;
                    self.active = Some(ActiveRequest { request: active.request, sent: true });
                    actions.push(
                        WorkerAction::SendRequest { worker_id: run.worker_id, request_id },
                    );
                    assert(actions@ =~= before + start.dispatched().1);
                } else {
                    self.active = Some(active);
                    assert(before + Seq::<WorkerAction<W>>::empty() =~= before);
                }
            },
        }
    }

    fn ensure_worker_and_dispatch(&mut self, actions: &mut Vec<WorkerAction<W>>)
        requires
            old(self).valid(),
        ensures
            final(self).valid(),
            *final(self) == old(self).ensured().0,
            final(actions)@ == old(actions)@ + old(self).ensured().1,
    {
        let ghost before = actions@;
        if self.stopped || self.active.is_none() {
            assert(before + Seq::<WorkerAction<W>>::empty() =~= before);
            return;
        }
        if self.run.is_none() {
            let worker_id: u64 = self.next_worker_id.wrapping_add(1);
            self.next_worker_id = worker_id;
            actions.push(WorkerAction::Spawn { worker_id });
            assert(actions@ =~= before + old(self).ensured().1);
        } else {
            self.dispatch_active(actions);
        }
    }

    /// Take the active request away and let the one that waits go ahead.
    fn promote(&mut self) -> (r: Option<ActiveRequest<W>>)
        requires
            !old(self).stopped || old(self).pending is None,
            old(self).valid() || old(self).run is None,
        ensures
            r == old(self).active,
            *final(self) == old(self).promoted(),
            final(self).valid() || final(self).stopped,
            old(self).valid() ==> final(self).valid(),
    {
        let active: Option<ActiveRequest<W>> = self.active.take();
        self.cancelling = false;
        if !self.stopped {
            match self.pending.take() {
                Some(request) => {
                    self.active = Some(ActiveRequest { request, sent: false });
                },
                None => {
                    self.active = None;
                },
            }
            self.pending = None;
        } else {
            self.active = None;
        }
        active
    }

    fn complete_cancelled_locally(&mut self, request_id: u64, actions: &mut Vec<WorkerAction<W>>)
        requires
            old(self).valid(),
        ensures
            final(self).valid(),
            *final(self) == old(self).cancelled_locally(request_id).0,
            final(actions)@ == old(actions)@ + old(self).cancelled_locally(request_id).1,
    {
        let ghost before = actions@;
        let ghost start = *self;
        if !self.request_is_active(request_id) {
            assert(before + Seq::<WorkerAction<W>>::empty() =~= before);
            return;
        }
        let _ = self.promote();
        actions.push(WorkerAction::Cancelled { request_id });
        self.ensure_worker_and_dispatch(actions);
        assert(actions@ =~= before + start.cancelled_locally(request_id).1);
    }

    fn cancel_active(&mut self, request_id: u64, actions: &mut Vec<WorkerAction<W>>)
        requires
            old(self).valid(),
        ensures
            final(self).valid(),
            *final(self) == old(self).cancel_begun(request_id).0,
            final(actions)@ == old(actions)@ + old(self).cancel_begun(request_id).1,
    {
        let ghost before = actions@;
        let ghost start = *self;
        if !self.request_is_active(request_id) {
            assert(before + Seq::<WorkerAction<W>>::empty() =~= before);
            return;
        }
        let sent: bool = match &self.active {
            Some(active) => active.sent,
            None => false,
        };
        match &self.run {
            Some(run) => {
                if sent {
                    actions.push(
                        WorkerAction::SendCancel { worker_id: run.worker_id, request_id },
                    );
                    assert(actions@ =~= before + start.cancel_begun(request_id).1);
                    return;
                }
            },
            None => {},
        }
        self.complete_cancelled_locally(request_id, actions);
    }

    /// Run a request as soon as possible, in place of any that came before.
    pub fn submit(&mut self, request: ClientRequest<W>) -> (r: Vec<WorkerAction<W>>)
        requires
            old(self).valid(),
        ensures
            final(self).valid(),
            (*final(self), r@) == old(self).submitted(request),
    {
        let ghost start = *self;
        let mut actions: Vec<WorkerAction<W>> = Vec::new();
        if self.stopped {
            actions.push(WorkerAction::Cancelled { request_id: request.request_id });
            assert(actions@ =~= start.submitted(request).1);
            return actions;
        }
        let active_id: u64 = match &self.active {
            None => {
                self.active = Some(ActiveRequest { request, sent: false });
                self.ensure_worker_and_dispatch(&mut actions);
                assert(actions@ =~= start.submitted(request).1);
                return actions;
            },
            Some(active) => active.request.request_id,
        };
        match self.pending.take() {
            Some(old) => {
                actions.push(WorkerAction::Cancelled { request_id: old.request_id });
            },
            None => {},
        }
        self.pending = Some(request);
        let ghost replaced = actions@;
        if self.cancelling {
            assert(actions@ =~= start.submitted(request).1);
        } else {
            self.cancelling = true;
            self.cancel_active(active_id, &mut actions);
            assert(actions@ =~= start.submitted(request).1);
        }
        actions
    }

    /// Give up the active request and the one that waits.
    pub fn cancel_current(&mut self) -> (r: Vec<WorkerAction<W>>)
        requires
            old(self).valid(),
        ensures
            final(self).valid(),
            (*final(self), r@) == old(self).current_cancelled(),
    {
        let ghost start = *self;
        let mut actions: Vec<WorkerAction<W>> = Vec::new();
        match self.pending.take() {
            Some(old) => {
                actions.push(WorkerAction::Cancelled { request_id: old.request_id });
            },
            None => {},
        }
        self.pending = None;
        if self.cancelling {
            assert(actions@ =~= start.current_cancelled().1);
            return actions;
        }
        match &self.active {
            None => {},
            Some(active) => {
                let request_id: u64 = active.request.request_id;
                self.cancelling = true;
                self.cancel_active(request_id, &mut actions);
            },
        }
        assert(actions@ =~= start.current_cancelled().1);
        actions
    }

    /// Stop for good. Nothing is answered any more.
    pub fn shutdown(&mut self) -> (r: Vec<WorkerAction<W>>)
        requires
            old(self).valid(),
        ensures
            final(self).valid(),
            final(self).stopped,
            (*final(self), r@) == old(self).shut_down(),
    {
        let ghost start = *self;
        let mut actions: Vec<WorkerAction<W>> = Vec::new();
        if self.stopped {
            assert(actions@ =~= start.shut_down().1);
            return actions;
        }
        self.stopped = true;
        self.active = None;
        self.pending = None;
        self.cancelling = false;
        match self.run.take() {
            Some(run) => {
                actions.push(WorkerAction::SendShutdown { worker_id: run.worker_id });
                actions.push(WorkerAction::Terminate { worker_id: run.worker_id });
            },
            None => {},
        }
        self.run = None;
        assert(actions@ =~= start.shut_down().1);
        actions
    }

    /// A worker was started. It takes requests once it says so.
    pub fn spawned(&mut self, worker_id: u64) -> (r: Vec<WorkerAction<W>>)
        requires
            old(self).valid(),
        ensures
            final(self).valid(),
            (*final(self), r@) == old(self).spawned_as(worker_id),
    {
        let mut actions: Vec<WorkerAction<W>> = Vec::new();
        if self.stopped || self.run.is_some() || worker_id != self.next_worker_id {
            actions.push(WorkerAction::Terminate { worker_id });
        } else {
            self.run = Some(WorkerRun { worker_id, ready: false });
        }
        assert(actions@ =~= old(self).spawned_as(worker_id).1);
        actions
    }

    /// A worker could not be started.
    pub fn spawn_failed(&mut self, message: String) -> (r: Vec<WorkerAction<W>>)
        requires
            old(self).valid(),
        ensures
            final(self).valid(),
            (*final(self), r@) == old(self).failed_without_worker(message),
    {
        let ghost start = *self;
        let mut actions: Vec<WorkerAction<W>> = Vec::new();
        if self.active.is_none() {
            actions.push(WorkerAction::Fatal { message });
            assert(actions@ =~= start.failed_without_worker(message).1);
            return actions;
        }
        match self.promote() {
            Some(active) => {
                actions.push(WorkerAction::Failed { request: active.request, message });
            },
            None => {},
        }
        self.ensure_worker_and_dispatch(&mut actions);
        assert(actions@ =~= start.failed_without_worker(message).1);
        actions
    }

    /// The worker takes requests.
    pub fn worker_ready(&mut self, worker_id: u64) -> (r: Vec<WorkerAction<W>>)
        requires
            old(self).valid(),
        ensures
            final(self).valid(),
            (*final(self), r@) == old(self).readied(worker_id),
    {
        let ghost start = *self;
        let mut actions: Vec<WorkerAction<W>> = Vec::new();
        if !self.worker_is_current(worker_id) {
            assert(actions@ =~= start.readied(worker_id).1);
            return actions;
        }
        self.run = Some(WorkerRun { worker_id, ready: true });
        actions.push(WorkerAction::Ready);
        self.dispatch_active(&mut actions);
        assert(actions@ =~= start.readied(worker_id).1);
        actions
    }

    /// The worker has finished a request.
    pub fn complete_finished(&mut self, worker_id: u64, request_id: u64) -> (r: Vec<
        WorkerAction<W>,
    >)
        requires
            old(self).valid(),
        ensures
            final(self).valid(),
            (*final(self), r@) == old(self).completed(worker_id, request_id),
    {
        let ghost start = *self;
        let mut actions: Vec<WorkerAction<W>> = Vec::new();
        if !self.worker_is_current(worker_id) || !self.request_is_active(request_id) {
            assert(actions@ =~= start.completed(worker_id, request_id).1);
            return actions;
        }
        match self.promote() {
            Some(active) => {
                actions.push(WorkerAction::Finished { request: active.request });
            },
            None => {},
        }
        self.ensure_worker_and_dispatch(&mut actions);
        assert(actions@ =~= start.completed(worker_id, request_id).1);
        actions
    }

    /// The worker has acknowledged a cancellation.
    pub fn complete_cancelled(&mut self, worker_id: u64, request_id: u64) -> (r: Vec<
        WorkerAction<W>,
    >)
        requires
            old(self).valid(),
        ensures
            final(self).valid(),
            (*final(self), r@) == old(self).acknowledged(worker_id, request_id),
    {
        let ghost start = *self;
        let mut actions: Vec<WorkerAction<W>> = Vec::new();
        if self.worker_is_current(worker_id) {
            self.complete_cancelled_locally(request_id, &mut actions);
        }
        assert(actions@ =~= start.acknowledged(worker_id, request_id).1);
        actions
    }

    /// Give up a worker that failed: while it held the expected request, where
    /// one is expected.
    pub fn recover_worker(
        &mut self,
        worker_id: u64,
        expected_request_id: Option<u64>,
        message: String,
    ) -> (r: Vec<WorkerAction<W>>)
        requires
            old(self).valid(),
        ensures
            final(self).valid(),
            (*final(self), r@) == old(self).recovered(worker_id, expected_request_id, message),
    {
        let ghost start = *self;
        let mut actions: Vec<WorkerAction<W>> = Vec::new();
        let expected: bool = match expected_request_id {
            Some(request_id) => self.request_is_active(request_id),
            None => true,
        };
        if !self.worker_is_current(worker_id) || !expected {
            assert(actions@ =~= start.recovered(worker_id, expected_request_id, message).1);
            return actions;
        }
        let was_cancelling: bool = self.cancelling;
        self.run = None;
        let active: Option<ActiveRequest<W>> = self.promote();
        actions.push(WorkerAction::Terminate { worker_id });
        match active {
            Some(active) => {
                if was_cancelling {
                    actions.push(
                        WorkerAction::Cancelled { request_id: active.request.request_id },
                    );
                } else {
                    actions.push(WorkerAction::Failed { request: active.request, message });
                }
            },
            None => {
                actions.push(WorkerAction::Fatal { message });
            },
        }
        self.ensure_worker_and_dispatch(&mut actions);
        assert(actions@ =~= start.recovered(worker_id, expected_request_id, message).1);
        actions
    }

    /// Something could not be sent to a worker.
    pub fn send_failed(&mut self, worker_id: u64, request_id: u64, message: String) -> (r: Vec<
        WorkerAction<W>,
    >)
        requires
            old(self).valid(),
        ensures
            final(self).valid(),
            (*final(self), r@) == old(self).recovered(worker_id, Some(request_id), message),
    {
        self.recover_worker(worker_id, Some(request_id), message)
    }

    /// The watchdog of a cancellation has run out. Cooperative work normally
    /// acknowledges cancellation first; this only recovers a worker that
    /// cannot observe the message.
    pub fn cancel_timed_out(&mut self, worker_id: u64, request_id: u64) -> (r: Vec<
        WorkerAction<W>,
    >)
        requires
            old(self).valid(),
        ensures
            final(self).valid(),
            if old(self).unresponsive(worker_id, request_id) {
                exists|message: String|
                    message@ == "browser render worker did not acknowledge cancellation"@ && (
                    *final(self),
                    r@,
                ) == #[trigger] old(self).recovered(worker_id, Some(request_id), message)
            } else {
                *final(self) == *old(self) && r@.len() == 0
            },
    {
        if self.cancelling && self.request_is_active(request_id) && self.worker_is_current(
            worker_id,
        ) {
            let message: String =
                "browser render worker did not acknowledge cancellation".to_owned();
            self.recover_worker(worker_id, Some(request_id), message)
        } else {
            Vec::new()
        }
    }
}

/// What the error event of a worker is reported as.
pub open spec fn worker_failure_text(message: Seq<char>) -> Seq<char> {
    if message.len() == 0 {
        "browser render worker failed to load"@
    } else {
        "browser render worker failed: "@ + message
    }
}

pub fn worker_failure(message: &str) -> (r: String)
    ensures
        r@ == worker_failure_text(message@),
{
    if crate::text::same_text(message, "") {
        proof {
            reveal_strlit("");
        }
        "browser render worker failed to load".to_owned()
    } else {
        proof {
            reveal_strlit("");
            assert(message@.len() == 0 ==> message@ =~= ""@);
        }
        let mut out: String = "browser render worker failed: ".to_owned();
        out.append(message);
        out
    }
}

/// The requests that a coordinator still has to answer.
pub open spec fn held<W>(state: Coordinator<W>) -> Multiset<u64> {
    let active = match state.active {
        Some(active) => Multiset::singleton(active.request.request_id),
        None => Multiset::empty(),
    };
    match state.pending {
        Some(request) => active.insert(request.request_id),
        None => active,
    }
}

/// The request that an action answers.
pub open spec fn answer_of<W>(action: WorkerAction<W>) -> Multiset<u64> {
    match action {
        WorkerAction::Cancelled { request_id } => Multiset::singleton(request_id),
        WorkerAction::Finished { request } => Multiset::singleton(request.request_id),
        WorkerAction::Failed { request, .. } => Multiset::singleton(request.request_id),
        _ => Multiset::empty(),
    }
}

/// The requests that some actions answer.
pub open spec fn answers_in<W>(actions: Seq<WorkerAction<W>>) -> Multiset<u64>
    decreases actions.len(),
{
    if actions.len() == 0 {
        Multiset::empty()
    } else {
        answers_in(actions.drop_last()).add(answer_of(actions.last()))
    }
}

/// A step answers what it takes off the coordinator, and nothing else.
pub open spec fn balanced<W>(before: Multiset<u64>, outcome: Outcome<W>) -> bool {
    before =~= held(outcome.0).add(answers_in(outcome.1))
}

proof fn lemma_answers_join<W>(a: Seq<WorkerAction<W>>, b: Seq<WorkerAction<W>>)
    ensures
        answers_in(a + b) =~= answers_in(a).add(answers_in(b)),
    decreases b.len(),
{
    if b.len() == 0 {
        assert(a + b =~= a);
    } else {
        assert((a + b).drop_last() =~= a + b.drop_last());
        lemma_answers_join(a, b.drop_last());
    }
}

proof fn lemma_one_answer<W>(action: WorkerAction<W>)
    ensures
        answers_in(seq![action]) =~= answer_of(action),
{
    assert(seq![action].drop_last() =~= Seq::empty());
    reveal_with_fuel(answers_in, 2);
}

proof fn lemma_ensured_balanced<W>(state: Coordinator<W>)
    ensures
        answers_in(state.ensured().1) =~= Multiset::empty(),
        held(state.ensured().0) =~= held(state),
{
    let (next, actions) = state.ensured();
    if actions.len() > 0 {
        lemma_one_answer(actions[0]);
        assert(actions =~= seq![actions[0]]);
    }
}

proof fn lemma_answered_balanced<W>(state: Coordinator<W>, action: WorkerAction<W>)
    requires
        state.valid(),
        state.active is Some,
        answer_of(action) == Multiset::<u64>::singleton(
            state.active->Some_0.request.request_id,
        ),
    ensures
        balanced(held(state), state.answered_with(action)),
{
    let rest = state.promoted();
    lemma_ensured_balanced(rest);
    lemma_one_answer(action);
    lemma_answers_join(seq![action], rest.ensured().1);
}

proof fn lemma_cancel_balanced<W>(state: Coordinator<W>, request_id: u64)
    requires
        state.valid(),
    ensures
        balanced(held(state), state.cancel_begun(request_id)),
        balanced(held(state), state.cancelled_locally(request_id)),
{
    if state.is_active(request_id) {
        lemma_answered_balanced(state, WorkerAction::Cancelled { request_id });
        if state.run is Some {
            lemma_one_answer(
                WorkerAction::<W>::SendCancel { worker_id: state.run->Some_0.worker_id, request_id },
            );
        }
    }
}

/// Every request is answered exactly once: what is submitted is held until a
/// step answers it, and no step answers anything else.
pub proof fn every_request_is_answered_once<W>(
    state: Coordinator<W>,
    request: ClientRequest<W>,
    worker_id: u64,
    request_id: u64,
    expected: Option<u64>,
    message: String,
)
    requires
        state.valid(),
    ensures
        balanced(held(state).insert(request.request_id), state.submitted(request)),
        balanced(held(state), state.current_cancelled()),
        balanced(held(state), state.spawned_as(worker_id)),
        balanced(held(state), state.failed_without_worker(message)),
        balanced(held(state), state.readied(worker_id)),
        balanced(held(state), state.completed(worker_id, request_id)),
        balanced(held(state), state.acknowledged(worker_id, request_id)),
        balanced(held(state), state.recovered(worker_id, expected, message)),
{
    lemma_cancel_balanced(state, request_id);
    // Submission.
    lemma_one_answer(WorkerAction::<W>::Cancelled { request_id: request.request_id });
    let started = Coordinator { active: Some(ActiveRequest { request, sent: false }), ..state };
    lemma_ensured_balanced(started);
    let dropped: Seq<WorkerAction<W>> = match state.pending {
        Some(old) => seq![WorkerAction::Cancelled { request_id: old.request_id }],
        None => Seq::empty(),
    };
    if state.pending is Some {
        lemma_one_answer(
            WorkerAction::<W>::Cancelled { request_id: state.pending->Some_0.request_id },
        );
    }
    if state.active is Some {
        let id = state.active->Some_0.request.request_id;
        let waiting = Coordinator { pending: Some(request), cancelling: true, ..state };
        if !state.stopped {
            lemma_cancel_balanced(waiting, id);
            lemma_answers_join(dropped, waiting.cancel_begun(id).1);
        }
        let alone = Coordinator { pending: None, cancelling: true, ..state };
        lemma_cancel_balanced(alone, id);
        lemma_answers_join(dropped, alone.cancel_begun(id).1);
        // Completion and failure.
        let active = state.active->Some_0;
        lemma_answered_balanced(state, WorkerAction::Finished { request: active.request });
        lemma_answered_balanced(
            state,
            WorkerAction::Failed { request: active.request, message },
        );
    }
    assert(balanced(held(state).insert(request.request_id), state.submitted(request)));
    assert(balanced(held(state), state.current_cancelled()));
    // Workers coming and going.
    lemma_one_answer(WorkerAction::<W>::Terminate { worker_id });
    lemma_one_answer(WorkerAction::<W>::Fatal { message });
    lemma_one_answer(WorkerAction::<W>::Ready);
    assert(balanced(held(state), state.spawned_as(worker_id)));
    assert(balanced(held(state), state.failed_without_worker(message)));
    if state.is_current(worker_id) {
        let ready = Coordinator { run: Some(WorkerRun { worker_id, ready: true }), ..state };
        let (next, actions) = ready.dispatched();
        if actions.len() > 0 {
            lemma_one_answer(actions[0]);
            assert(actions =~= seq![actions[0]]);
        }
        lemma_answers_join(seq![WorkerAction::<W>::Ready], actions);
        let lost = Coordinator { run: None, ..state }.promoted();
        lemma_ensured_balanced(lost);
        let answer = match state.active {
            Some(active) => if state.cancelling {
                WorkerAction::Cancelled { request_id: active.request.request_id }
            } else {
                WorkerAction::Failed { request: active.request, message }
            },
            None => WorkerAction::Fatal { message },
        };
        lemma_one_answer(answer);
        let both = seq![WorkerAction::Terminate { worker_id }, answer];
        assert(both =~= seq![WorkerAction::Terminate { worker_id }] + seq![answer]);
        lemma_answers_join(seq![WorkerAction::<W>::Terminate { worker_id }], seq![answer]);
        lemma_answers_join(both, lost.ensured().1);
    }
}

/// The latest request wins: after a submission it is the one that waits, or
/// the active one where nothing else is running.
pub proof fn latest_request_wins<W>(state: Coordinator<W>, request: ClientRequest<W>)
    requires
        state.valid(),
        !state.stopped,
    ensures
        ({
            let next = state.submitted(request).0;
            ||| next.pending == Some(request)
            ||| next.pending is None && next.active is Some && next.active->Some_0.request
                == request
        }),
{
}

/// Some actions ask a worker to cancel.
pub open spec fn asks_to_cancel<W>(actions: Seq<WorkerAction<W>>) -> bool {
    exists|i: int| 0 <= i < actions.len() && (#[trigger] actions[i]) is SendCancel
}

/// The worker is asked to cancel a request only once, however many requests
/// come to replace it.
pub proof fn superseded_work_is_cancelled_once<W>(
    state: Coordinator<W>,
    request: ClientRequest<W>,
)
    requires
        state.valid(),
        state.cancelling,
    ensures
        !asks_to_cancel(state.submitted(request).1),
        !asks_to_cancel(state.current_cancelled().1),
{
    assert forall|i: int| 0 <= i < state.submitted(request).1.len() implies !((
    #[trigger] state.submitted(request).1[i]) is SendCancel) by {}
    assert forall|i: int| 0 <= i < state.current_cancelled().1.len() implies !((
    #[trigger] state.current_cancelled().1[i]) is SendCancel) by {}
}

} // verus!
