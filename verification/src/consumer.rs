use vstd::prelude::*;

verus! {

/// The outcome of one attempt to receive.
#[derive(Clone, Copy, Debug, PartialEq, Eq, Structural)]
pub enum Outcome {
    /// A message arrived.
    Item,
    /// Nothing was there, but the channel is still open.
    Empty,
    /// The channel is closed (or the attempt failed).
    Closed,
}

/// How a consumer receives.
#[derive(Clone, Copy, Debug)]
pub struct ConsumerPlan {
    /// Number of incoming channels; attempts go round them in order,
    /// starting with channel 0.
    pub sources: usize,
    /// Acknowledge (decrement the shared counter) after each message.
    pub acknowledge: bool,
}

impl ConsumerPlan {
    pub open spec fn well_formed(self) -> bool {
        self.sources >= 1
    }

    /// One channel; each message is acknowledged on the shared counter.
    pub fn acknowledging() -> (plan: Self)
        ensures
            plan.well_formed(),
            plan == (ConsumerPlan { sources: 1, acknowledge: true }),
    {
        ConsumerPlan { sources: 1, acknowledge: true }
    }

    /// One channel; messages are taken and dropped.
    pub fn draining() -> (plan: Self)
        ensures
            plan.well_formed(),
            plan == (ConsumerPlan { sources: 1, acknowledge: false }),
    {
        ConsumerPlan { sources: 1, acknowledge: false }
    }

    /// Two channels, tried in turn; messages are taken and dropped.
    pub fn alternating_pair() -> (plan: Self)
        ensures
            plan.well_formed(),
            plan == (ConsumerPlan { sources: 2, acknowledge: false }),
    {
        ConsumerPlan { sources: 2, acknowledge: false }
    }
}

/// What a consumer asks its driver to do next.
#[derive(Clone, Copy, Debug, PartialEq, Eq, Structural)]
pub enum ConsumerAction {
    /// Try to receive from channel `source`, and report the outcome.
    Receive { source: usize },
    /// Decrement the shared counter, then report `Done`.
    Acknowledge,
    /// Stop consuming.
    Stop,
}

/// What the driver reports back after performing an action.
#[derive(Clone, Copy, Debug, PartialEq, Eq, Structural)]
pub enum ConsumerReport {
    /// The action was performed (or, at the start, nothing was asked yet).
    Done,
    /// The receive attempt had this outcome.
    Received(Outcome),
}

/// Where a consumer stands between two actions.
#[derive(Clone, Copy, Debug, PartialEq, Eq, Structural)]
pub enum ConsumerStage {
    Fresh,
    Receiving,
    Acknowledging,
    Stopped,
}

/// The decisions of a consumer: where to receive next, when to acknowledge a
/// message, and when to stop.
pub struct Consumer {
    plan: ConsumerPlan,
    source: usize,
    stage: ConsumerStage,
    attempts: Ghost<nat>,
    items: Ghost<nat>,
    acknowledged: Ghost<nat>,
}

impl Consumer {
    pub closed spec fn plan(self) -> ConsumerPlan {
        self.plan
    }

    pub closed spec fn stage(self) -> ConsumerStage {
        self.stage
    }

    /// How many receive attempts have been asked for.
    pub closed spec fn attempts(self) -> nat {
        self.attempts@
    }

    /// How many messages have been reported received.
    pub closed spec fn items(self) -> nat {
        self.items@
    }

    /// How many acknowledgements have been asked for.
    pub closed spec fn acknowledged(self) -> nat {
        self.acknowledged@
    }

    /// The consumer's channel and counts agree with its stage and plan.
    pub closed spec fn wf(self) -> bool {
        &&& self.plan.well_formed()
        &&& self.stage is Fresh ==> self.attempts@ == 0 && self.items@ == 0
        &&& self.stage is Receiving ==> self.attempts@ >= 1 && self.source == (self.attempts@ - 1)
            % (self.plan.sources as int)
        &&& !(self.stage is Receiving) ==> self.source == self.attempts@ as int % (
        self.plan.sources as int)
        &&& self.plan.acknowledge ==> self.acknowledged@ == self.items@
        &&& !self.plan.acknowledge ==> self.acknowledged@ == 0
        &&& self.stage is Acknowledging ==> self.plan.acknowledge
    }

    /// A consumer that has asked for nothing yet.
    pub fn new(plan: ConsumerPlan) -> (consumer: Self)
        requires
            plan.well_formed(),
        ensures
            consumer.wf(),
            consumer.plan() == plan,
            consumer.stage() is Fresh,
            consumer.attempts() == 0,
            consumer.items() == 0,
            consumer.acknowledged() == 0,
    {
        proof {
            vstd::arithmetic::div_mod::lemma_small_mod(0, plan.sources as nat);
        }
        Consumer {
            plan,
            source: 0,
            stage: ConsumerStage::Fresh,
            attempts: Ghost(0),
            items: Ghost(0),
            acknowledged: Ghost(0),
        }
    }

    fn receive(&mut self) -> (action: ConsumerAction)
        requires
            old(self).plan.well_formed(),
            old(self).source == old(self).attempts@ as int % (old(self).plan.sources as int),
        ensures
            final(self).plan == old(self).plan,
            final(self).stage is Receiving,
            final(self).attempts@ == old(self).attempts@ + 1,
            final(self).items == old(self).items,
            final(self).acknowledged == old(self).acknowledged,
            final(self).source == old(self).source,
            action == (ConsumerAction::Receive { source: old(self).source }),
    {
        self.stage = ConsumerStage::Receiving;
        self.attempts = Ghost(self.attempts@ + 1);
        ConsumerAction::Receive { source: self.source }
    }

    /// Moves to the channel after the one just tried.
    fn rotate(&mut self)
        requires
            old(self).plan.well_formed(),
            old(self).attempts@ >= 1,
            old(self).source == (old(self).attempts@ - 1) % (old(self).plan.sources as int),
        ensures
            final(self).source == final(self).attempts@ as int % (final(self).plan.sources as int),
            final(self).plan == old(self).plan,
            final(self).attempts == old(self).attempts,
            final(self).items == old(self).items,
            final(self).acknowledged == old(self).acknowledged,
            final(self).stage == old(self).stage,
    {
        proof {
            let n = self.plan.sources as int;
            let a = self.attempts@ as int;
            let q = (a - 1) / n;
            let r = (a - 1) % n;
            vstd::arithmetic::div_mod::lemma_fundamental_div_mod(a - 1, n);
            vstd::arithmetic::div_mod::lemma_mod_bound(a - 1, n);
            if r + 1 < n {
                vstd::arithmetic::div_mod::lemma_fundamental_div_mod_converse(a, n, q, r + 1);
            } else {
                assert((q + 1) * n == q * n + n) by (nonlinear_arith);
                vstd::arithmetic::div_mod::lemma_fundamental_div_mod_converse(a, n, q + 1, 0);
            }
        }
        if self.source + 1 == self.plan.sources {
            self.source = 0;
        } else {
            self.source = self.source + 1;
        }
    }

    /// The next action, given the outcome of the previous one.
    ///
    /// The consumer tries its channels in turn; it acknowledges each message
    /// it gets (where the plan says so) before it tries again, and stops at
    /// the first attempt that finds its channel closed.
    pub fn next_action(&mut self, report: ConsumerReport) -> (action: ConsumerAction)
        requires
            old(self).wf(),
        ensures
            final(self).wf(),
            final(self).plan() == old(self).plan(),
            old(self).stage() is Stopped ==> action is Stop,
            action is Stop <==> (old(self).stage() is Stopped || (old(self).stage() is Receiving
                && report == ConsumerReport::Received(Outcome::Closed))),
            action is Stop <==> final(self).stage() is Stopped,
            action is Receive ==> final(self).stage() is Receiving,
            action is Acknowledge ==> final(self).stage() is Acknowledging,
            action is Acknowledge <==> (old(self).stage() is Receiving && report
                == ConsumerReport::Received(Outcome::Item) && old(self).plan().acknowledge),
            action is Receive ==> action->source == old(self).attempts() as int % (old(
                self,
            ).plan().sources as int) && final(self).attempts() == old(self).attempts() + 1,
            !(action is Receive) ==> final(self).attempts() == old(self).attempts(),
            final(self).items() == old(self).items() + if old(self).stage() is Receiving && report
                == ConsumerReport::Received(Outcome::Item) {
                1nat
            } else {
                0nat
            },
            final(self).acknowledged() == old(self).acknowledged() + if action is Acknowledge {
                1nat
            } else {
                0nat
            },
            old(self).plan().acknowledge ==> final(self).acknowledged() == final(self).items(),
            !old(self).plan().acknowledge ==> final(self).acknowledged() == 0,
    {
        match self.stage {
            ConsumerStage::Stopped => ConsumerAction::Stop,
            ConsumerStage::Fresh => self.receive(),
            ConsumerStage::Acknowledging => self.receive(),
            ConsumerStage::Receiving => {
                match report {
                    ConsumerReport::Received(Outcome::Closed) => {
                        self.rotate();
                        self.stage = ConsumerStage::Stopped;
                        ConsumerAction::Stop
                    },
                    ConsumerReport::Received(Outcome::Item) => {
                        self.items = Ghost(self.items@ + 1);
                        if self.plan.acknowledge {
                            self.acknowledged = Ghost(self.acknowledged@ + 1);
                            self.rotate();
                            self.stage = ConsumerStage::Acknowledging;
                            ConsumerAction::Acknowledge
                        } else {
                            self.rotate();
                            self.receive()
                        }
                    },
                    _ => {
                        self.rotate();
                        self.receive()
                    },
                }
            },
        }
    }
}

} // verus!
