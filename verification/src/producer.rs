use vstd::prelude::*;

verus! {

/// When a producer credits the shared counter with the deliveries of a message.
#[derive(Clone, Copy, Debug, PartialEq, Eq, Structural)]
pub enum Credit {
    /// The counter is not used.
    Unused,
    /// The deliveries are announced before the message is sent.
    BeforeSend,
    /// The deliveries are announced after the message is sent.
    AfterSend,
}

/// Which outgoing channels a message goes to.
#[derive(Clone, Copy, Debug, PartialEq, Eq, Structural)]
pub enum Routing {
    /// Every message goes to every channel, in the order of the channels.
    Broadcast,
    /// Two channels: every fourth message (those whose index is a multiple
    /// of 4) goes to channel 0, all others to channel 1.
    SplitByFour,
}

/// How a producer sends the messages `0..length`.
#[derive(Clone, Copy, Debug)]
pub struct ProducerPlan {
    /// Number of messages; message `i` carries the value `i`.
    pub length: u32,
    /// Number of outgoing channels.
    pub targets: usize,
    pub routing: Routing,
    pub credit: Credit,
    /// Wait, before each message, until the counter (or, where no counter
    /// is used, the channel) reads empty.
    pub wait_before_each: bool,
    /// Wait, after the last message, until the counter reads empty.
    pub wait_at_end: bool,
}

/// What a producer asks its driver to do next.
#[derive(Clone, Copy, Debug, PartialEq, Eq, Structural)]
pub enum ProducerAction {
    /// Read whether the counter (or channel) is empty, and report `Drained` or
    /// `Pending`.
    CheckDrained,
    /// Pause briefly, then report `Done`.
    Sleep,
    /// Add the given number of expected deliveries to the shared counter.
    AddCredit(usize),
    /// Send `value` on outgoing channel `target`.
    Send { target: usize, value: u64 },
    /// All messages are out (and, where planned, processed): stop.
    Finish,
}

/// What the driver reports back after performing an action.
#[derive(Clone, Copy, Debug, PartialEq, Eq, Structural)]
pub enum ProducerReport {
    /// The action was performed (or, at the start, nothing was asked yet).
    Done,
    /// The counter (or channel) was read and is empty.
    Drained,
    /// The counter (or channel) was read and is not empty.
    Pending,
}

/// Where a producer stands between two actions.
#[derive(Clone, Copy, Debug, PartialEq, Eq, Structural)]
pub enum Stage {
    /// Nothing has been asked yet.
    Fresh,
    /// A drain check was asked for.
    Checking,
    /// A pause was asked for, after a check found work pending.
    Sleeping,
    /// An effect of the current message was asked for.
    Emitting,
    /// `Finish` was asked for.
    Finished,
}

/// An action that changes the world outside the producer: crediting the
/// counter or sending a message.
pub open spec fn is_effect(action: ProducerAction) -> bool {
    action is AddCredit || action is Send
}

/// The channel that message `i` goes to under `SplitByFour`.
pub open spec fn route(i: nat) -> nat {
    if i % 4 == 0 {
        0
    } else {
        1
    }
}

impl ProducerPlan {
    /// The plan can be carried out: a split goes to exactly two channels,
    /// and the number of channels is below the largest `usize` (a `Vec` of
    /// that many senders cannot exist).
    pub open spec fn well_formed(self) -> bool {
        &&& self.routing is SplitByFour ==> self.targets == 2
        &&& self.targets < usize::MAX
    }

    /// The sends of message `i`, in order.
    pub open spec fn sends(self, i: nat) -> Seq<ProducerAction> {
        match self.routing {
            Routing::Broadcast => Seq::new(
                self.targets as nat,
                |t: int| ProducerAction::Send { target: t as usize, value: i as u64 },
            ),
            Routing::SplitByFour => seq![
                ProducerAction::Send { target: route(i) as usize, value: i as u64 },
            ],
        }
    }

    /// Everything that message `i` does to the outside world, in order: its
    /// sends, with the credit of as many deliveries before or after them.
    pub open spec fn message_effects(self, i: nat) -> Seq<ProducerAction> {
        let s = self.sends(i);
        match self.credit {
            Credit::Unused => s,
            Credit::BeforeSend => seq![ProducerAction::AddCredit(s.len() as usize)] + s,
            Credit::AfterSend => s.push(ProducerAction::AddCredit(s.len() as usize)),
        }
    }

    /// The effects of messages `0..i`, in order.
    pub open spec fn effects_before(self, i: nat) -> Seq<ProducerAction>
        decreases i,
    {
        if i == 0 {
            seq![]
        } else {
            self.effects_before((i - 1) as nat) + self.message_effects((i - 1) as nat)
        }
    }

    /// Everything the whole run does to the outside world, in order.
    pub open spec fn all_effects(self) -> Seq<ProducerAction> {
        self.effects_before(self.length as nat)
    }

    /// The steps of message `i`: a drain check where the plan waits before
    /// each message, then the message's effects.
    pub open spec fn message_steps(self, i: nat) -> Seq<ProducerAction> {
        if self.wait_before_each {
            seq![ProducerAction::CheckDrained] + self.message_effects(i)
        } else {
            self.message_effects(i)
        }
    }

    /// The steps of messages `0..i`, in order.
    pub open spec fn steps_before(self, i: nat) -> Seq<ProducerAction>
        decreases i,
    {
        if i == 0 {
            seq![]
        } else {
            self.steps_before((i - 1) as nat) + self.message_steps((i - 1) as nat)
        }
    }

    /// The steps after the last message: a drain check where the plan waits
    /// at the end, then `Finish`.
    pub open spec fn closing(self) -> Seq<ProducerAction> {
        if self.wait_at_end {
            seq![ProducerAction::CheckDrained, ProducerAction::Finish]
        } else {
            seq![ProducerAction::Finish]
        }
    }

    /// The whole run, step by step. A `CheckDrained` step is complete once a
    /// check reports the counter drained; every other step once it is asked
    /// for.
    pub open spec fn schedule(self) -> Seq<ProducerAction> {
        self.steps_before(self.length as nat) + self.closing()
    }
}

impl ProducerPlan {
    /// Every message to every one of `targets` channels, each announced on
    /// the counter before it is sent; each message, and the end, waits until
    /// the counter reads empty.
    pub fn paced_broadcast(length: u32, targets: usize) -> (plan: Self)
        requires
            targets < usize::MAX,
        ensures
            plan.well_formed(),
            plan == (ProducerPlan {
                length,
                targets,
                routing: Routing::Broadcast,
                credit: Credit::BeforeSend,
                wait_before_each: true,
                wait_at_end: true,
            }),
    {
        ProducerPlan {
            length,
            targets,
            routing: Routing::Broadcast,
            credit: Credit::BeforeSend,
            wait_before_each: true,
            wait_at_end: true,
        }
    }

    /// Every message to every one of `targets` channels, without waiting.
    pub fn broadcast(length: u32, targets: usize) -> (plan: Self)
        requires
            targets < usize::MAX,
        ensures
            plan.well_formed(),
            plan == (ProducerPlan {
                length,
                targets,
                routing: Routing::Broadcast,
                credit: Credit::Unused,
                wait_before_each: false,
                wait_at_end: false,
            }),
    {
        ProducerPlan {
            length,
            targets,
            routing: Routing::Broadcast,
            credit: Credit::Unused,
            wait_before_each: false,
            wait_at_end: false,
        }
    }

    /// Every message to one channel; before each message the producer waits
    /// until the counter reads empty, and it credits the counter with the
    /// delivery as `credit` says.
    pub fn paced_single(length: u32, credit: Credit) -> (plan: Self)
        ensures
            plan.well_formed(),
            plan == (ProducerPlan {
                length,
                targets: 1,
                routing: Routing::Broadcast,
                credit,
                wait_before_each: true,
                wait_at_end: false,
            }),
    {
        ProducerPlan {
            length,
            targets: 1,
            routing: Routing::Broadcast,
            credit,
            wait_before_each: true,
            wait_at_end: false,
        }
    }

    /// Every message to one channel; before each message the producer waits
    /// until the channel itself reads empty.
    pub fn drained_single(length: u32) -> (plan: Self)
        ensures
            plan.well_formed(),
            plan == (ProducerPlan {
                length,
                targets: 1,
                routing: Routing::Broadcast,
                credit: Credit::Unused,
                wait_before_each: true,
                wait_at_end: false,
            }),
    {
        ProducerPlan {
            length,
            targets: 1,
            routing: Routing::Broadcast,
            credit: Credit::Unused,
            wait_before_each: true,
            wait_at_end: false,
        }
    }

    /// Every message to one channel, without waiting.
    pub fn single(length: u32) -> (plan: Self)
        ensures
            plan.well_formed(),
            plan == (ProducerPlan {
                length,
                targets: 1,
                routing: Routing::Broadcast,
                credit: Credit::Unused,
                wait_before_each: false,
                wait_at_end: false,
            }),
    {
        ProducerPlan {
            length,
            targets: 1,
            routing: Routing::Broadcast,
            credit: Credit::Unused,
            wait_before_each: false,
            wait_at_end: false,
        }
    }

    /// Messages split over two channels (every fourth to channel 0, the
    /// others to channel 1), without waiting.
    pub fn split_pair(length: u32) -> (plan: Self)
        ensures
            plan.well_formed(),
            plan == (ProducerPlan {
                length,
                targets: 2,
                routing: Routing::SplitByFour,
                credit: Credit::Unused,
                wait_before_each: false,
                wait_at_end: false,
            }),
    {
        ProducerPlan {
            length,
            targets: 2,
            routing: Routing::SplitByFour,
            credit: Credit::Unused,
            wait_before_each: false,
            wait_at_end: false,
        }
    }
}

/// The channel for message `message` under `SplitByFour`: channel 0 for every
/// fourth message, channel 1 for the others.
pub fn channel_for(message: u32) -> (channel: usize)
    ensures
        channel == route(message as nat),
        channel == 0 <==> message % 4 == 0,
        channel == 1 <==> message % 4 != 0,
{
    if message % 4 == 0 {
        0
    } else {
        1
    }
}

fn sends_len(plan: &ProducerPlan, i: u32) -> (n: usize)
    requires
        plan.well_formed(),
    ensures
        n == plan.sends(i as nat).len(),
{
    match plan.routing {
        Routing::Broadcast => plan.targets,
        Routing::SplitByFour => 1,
    }
}

fn message_len(plan: &ProducerPlan, i: u32) -> (n: usize)
    requires
        plan.well_formed(),
    ensures
        n == plan.message_effects(i as nat).len(),
{
    let s = sends_len(plan, i);
    match plan.credit {
        Credit::Unused => s,
        Credit::BeforeSend => s + 1,
        Credit::AfterSend => s + 1,
    }
}

fn send_at(plan: &ProducerPlan, i: u32, t: usize) -> (action: ProducerAction)
    requires
        plan.well_formed(),
        t < plan.sends(i as nat).len(),
    ensures
        action == plan.sends(i as nat)[t as int],
{
    let value: u64 = i as u64;
    match plan.routing {
        Routing::Broadcast => ProducerAction::Send { target: t, value },
        Routing::SplitByFour => ProducerAction::Send { target: channel_for(i), value },
    }
}

fn effect_at(plan: &ProducerPlan, i: u32, k: usize) -> (action: ProducerAction)
    requires
        plan.well_formed(),
        k < plan.message_effects(i as nat).len(),
    ensures
        action == plan.message_effects(i as nat)[k as int],
{
    let s = sends_len(plan, i);
    match plan.credit {
        Credit::Unused => send_at(plan, i, k),
        Credit::BeforeSend => {
            if k == 0 {
                ProducerAction::AddCredit(s)
            } else {
                send_at(plan, i, k - 1)
            }
        },
        Credit::AfterSend => {
            if k < s {
                send_at(plan, i, k)
            } else {
                ProducerAction::AddCredit(s)
            }
        },
    }
}

/// How far asking for `action` moves a producer along its schedule: a drain
/// check is complete only once it reports the counter drained.
pub open spec fn advance(action: ProducerAction) -> nat {
    if action is CheckDrained {
        0
    } else {
        1
    }
}

/// The decisions of a producer: which message to send where, when to credit
/// the counter, and when to wait for the counter to drain. A driver performs
/// each action it returns and reports the outcome back.
pub struct Producer {
    plan: ProducerPlan,
    message: u32,
    offset: usize,
    stage: Stage,
}

impl Producer {
    pub closed spec fn plan(self) -> ProducerPlan {
        self.plan
    }

    pub closed spec fn stage(self) -> Stage {
        self.stage
    }

    /// How many steps of the schedule are complete.
    pub closed spec fn position(self) -> nat {
        let before = self.plan.steps_before(self.message as nat).len();
        match self.stage {
            Stage::Fresh => 0,
            Stage::Checking => before,
            Stage::Sleeping => before,
            Stage::Emitting => before + if self.plan.wait_before_each {
                1nat
            } else {
                0nat
            } + self.offset as nat,
            Stage::Finished => self.plan.schedule().len(),
        }
    }

    /// The position lies within the plan.
    closed spec fn in_plan(self) -> bool {
        &&& self.plan.well_formed()
        &&& self.message <= self.plan.length
        &&& self.message < self.plan.length ==> self.offset <= self.plan.message_effects(
            self.message as nat,
        ).len()
        &&& self.message == self.plan.length ==> self.offset == 0
    }

    /// The producer's position and stage agree with each other and with
    /// its plan.
    pub closed spec fn wf(self) -> bool {
        &&& self.in_plan()
        &&& self.stage is Fresh ==> self.message == 0 && self.offset == 0
        &&& (self.stage is Checking || self.stage is Sleeping) ==> {
            &&& self.offset == 0
            &&& self.message < self.plan.length ==> self.plan.wait_before_each
            &&& self.message == self.plan.length ==> self.plan.wait_at_end
        }
        &&& self.stage is Emitting ==> self.message < self.plan.length && self.offset >= 1
        &&& self.stage is Finished ==> self.message == self.plan.length && self.offset == 0
    }

    /// A producer that has asked for nothing yet.
    pub fn new(plan: ProducerPlan) -> (producer: Self)
        requires
            plan.well_formed(),
        ensures
            producer.wf(),
            producer.plan() == plan,
            producer.stage() is Fresh,
            producer.position() == 0,
    {
        Producer { plan, message: 0, offset: 0, stage: Stage::Fresh }
    }

    /// While a drain check is pending, the step at the producer's position
    /// is that check; once finished, the producer is past the whole schedule.
    pub proof fn lemma_position_in_schedule(self)
        requires
            self.wf(),
        ensures
            self.position() <= self.plan().schedule().len(),
            (self.stage() is Checking || self.stage() is Sleeping) ==> self.plan().schedule()[self.position() as int]
                is CheckDrained,
            self.stage() is Finished <==> self.position() == self.plan().schedule().len(),
    {
        let plan = self.plan;
        let m = self.message as nat;
        lemma_schedule_len(plan);
        if m < plan.length {
            lemma_steps_before_len(plan, m);
            lemma_steps_before_monotone(plan, m + 1, plan.length as nat);
            if self.stage is Checking || self.stage is Sleeping {
                lemma_steps_at(plan, m, 0);
            }
        } else {
            assert(plan.schedule()[plan.steps_before(m).len() as int] == plan.closing()[0]);
        }
        if self.stage is Emitting {
            lemma_steps_before_len(plan, m);
            lemma_steps_before_monotone(plan, m + 1, plan.length as nat);
        }
    }

    /// Asks for effect `offset` of the current message.
    fn emit(&mut self) -> (action: ProducerAction)
        requires
            old(self).in_plan(),
            old(self).message < old(self).plan.length,
            old(self).offset < old(self).plan.message_effects(old(self).message as nat).len(),
        ensures
            final(self).wf(),
            final(self).plan == old(self).plan,
            final(self).stage is Emitting,
            final(self).message == old(self).message,
            final(self).offset == old(self).offset + 1,
            action == old(self).plan.message_effects(old(self).message as nat)[old(self).offset as int],
            is_effect(action),
    {
        let action = effect_at(&self.plan, self.message, self.offset);
        self.offset = self.offset + 1;
        self.stage = Stage::Emitting;
        action
    }

    /// Asks for the first step of message `message` (or, past the last
    /// message, of the closing steps): passes over messages without steps.
    fn open_message(&mut self) -> (action: ProducerAction)
        requires
            old(self).in_plan(),
            old(self).offset == 0,
        ensures
            final(self).wf(),
            final(self).plan == old(self).plan,
            action == old(self).plan.schedule()[old(self).plan.steps_before(
                old(self).message as nat,
            ).len() as int],
            final(self).position() == old(self).plan.steps_before(old(self).message as nat).len()
                + advance(action),
            action is CheckDrained ==> final(self).stage is Checking,
            action is Finish ==> final(self).stage is Finished,
            is_effect(action) ==> final(self).stage is Emitting,
            !(action is Sleep),
    {
        let ghost start = self.plan.steps_before(self.message as nat).len();
        let length = self.plan.length;
        let no_wait = !self.plan.wait_before_each;
        while self.message < length && no_wait && message_len(&self.plan, self.message) == 0
            invariant
                self.in_plan(),
                self.offset == 0,
                self.plan == old(self).plan,
                length == self.plan.length,
                no_wait == !self.plan.wait_before_each,
                self.plan.steps_before(self.message as nat).len() == start,
            decreases length - self.message,
        {
            proof {
                lemma_steps_before_len(self.plan, self.message as nat);
            }
            self.message = self.message + 1;
        }
        let ghost m = self.message as nat;
        proof {
            lemma_schedule_len(self.plan);
            if m < length {
                lemma_steps_at(self.plan, m, 0);
            } else {
                assert(self.plan.schedule()[start as int] == self.plan.closing()[0]);
            }
        }
        if self.message < length {
            if no_wait {
                proof {
                    lemma_steps_before_len(self.plan, m);
                }
                self.emit()
            } else {
                self.stage = Stage::Checking;
                ProducerAction::CheckDrained
            }
        } else if self.plan.wait_at_end {
            self.stage = Stage::Checking;
            ProducerAction::CheckDrained
        } else {
            self.stage = Stage::Finished;
            ProducerAction::Finish
        }
    }

    /// Goes on after a check reported the counter drained.
    fn after_drained(&mut self) -> (action: ProducerAction)
        requires
            old(self).wf(),
            old(self).stage is Checking,
        ensures
            final(self).wf(),
            final(self).plan == old(self).plan,
            action == old(self).plan.schedule()[old(self).position() as int + 1],
            final(self).position() == old(self).position() + 1 + advance(action),
            action is CheckDrained ==> final(self).stage is Checking,
            action is Finish ==> final(self).stage is Finished,
            is_effect(action) ==> final(self).stage is Emitting,
            !(action is Sleep),
    {
        let ghost m = self.message as nat;
        proof {
            lemma_schedule_len(self.plan);
        }
        if self.message == self.plan.length {
            proof {
                assert(self.plan.schedule()[self.position() as int + 1] == self.plan.closing()[1]);
            }
            self.stage = Stage::Finished;
            ProducerAction::Finish
        } else if message_len(&self.plan, self.message) > 0 {
            proof {
                lemma_steps_at(self.plan, m, 1);
            }
            self.emit()
        } else {
            proof {
                lemma_steps_before_len(self.plan, m);
            }
            self.message = self.message + 1;
            self.open_message()
        }
    }

    /// The next action, given the outcome of the previous one.
    ///
    /// The producer walks through its plan's schedule: it asks for each step
    /// in turn; at a drain check it asks again, pausing in between, until a
    /// check reports the counter drained, and only then goes on.
    pub fn next_action(&mut self, report: ProducerReport) -> (action: ProducerAction)
        requires
            old(self).wf(),
        ensures
            final(self).wf(),
            final(self).plan() == old(self).plan(),
            old(self).stage() is Finished ==> action is Finish && final(self).position() == old(
                self,
            ).position(),
            old(self).stage() is Sleeping ==> action is CheckDrained && final(self).position()
                == old(self).position(),
            old(self).stage() is Checking && report != ProducerReport::Drained ==> action is Sleep
                && final(self).position() == old(self).position(),
            old(self).stage() is Checking && report == ProducerReport::Drained ==> action == old(
                self,
            ).plan().schedule()[old(self).position() as int + 1] && final(self).position() == old(
                self,
            ).position() + 1 + advance(action),
            (old(self).stage() is Fresh || old(self).stage() is Emitting) ==> action == old(
                self,
            ).plan().schedule()[old(self).position() as int] && final(self).position() == old(
                self,
            ).position() + advance(action),
            action is CheckDrained ==> final(self).stage() is Checking,
            action is Sleep ==> final(self).stage() is Sleeping,
            action is Finish ==> final(self).stage() is Finished,
            is_effect(action) ==> final(self).stage() is Emitting,
    {
        match self.stage {
            Stage::Finished => ProducerAction::Finish,
            Stage::Sleeping => {
                self.stage = Stage::Checking;
                ProducerAction::CheckDrained
            },
            Stage::Checking => {
                match report {
                    ProducerReport::Drained => self.after_drained(),
                    _ => {
                        self.stage = Stage::Sleeping;
                        ProducerAction::Sleep
                    },
                }
            },
            Stage::Fresh => self.open_message(),
            Stage::Emitting => {
                if self.offset < message_len(&self.plan, self.message) {
                    proof {
                        lemma_steps_at(
                            self.plan,
                            self.message as nat,
                            self.offset + if self.plan.wait_before_each {
                                1int
                            } else {
                                0
                            },
                        );
                    }
                    self.emit()
                } else {
                    proof {
                        lemma_steps_before_len(self.plan, self.message as nat);
                    }
                    self.message = self.message + 1;
                    self.offset = 0;
                    self.open_message()
                }
            },
        }
    }
}

proof fn lemma_steps_before_len(plan: ProducerPlan, m: nat)
    ensures
        plan.steps_before(m + 1).len() == plan.steps_before(m).len() + plan.message_steps(m).len(),
        plan.message_steps(m).len() == plan.message_effects(m).len() + if plan.wait_before_each {
            1nat
        } else {
            0nat
        },
{
    assert(plan.steps_before(m + 1) == plan.steps_before(m) + plan.message_steps(m));
}

proof fn lemma_schedule_len(plan: ProducerPlan)
    ensures
        plan.schedule().len() == plan.steps_before(plan.length as nat).len() + plan.closing().len(),
        forall|k: int|
            0 <= k < plan.closing().len() ==> plan.schedule()[plan.steps_before(
                plan.length as nat,
            ).len() + k] == #[trigger] plan.closing()[k],
{
}

/// The steps of messages `0..i` are a prefix of those of messages `0..j`
/// for `i <= j`.
proof fn lemma_steps_before_monotone(plan: ProducerPlan, i: nat, j: nat)
    requires
        i <= j,
    ensures
        plan.steps_before(i).len() <= plan.steps_before(j).len(),
        forall|k: int|
            0 <= k < plan.steps_before(i).len() ==> #[trigger] plan.steps_before(i)[k]
                == plan.steps_before(j)[k],
    decreases j - i,
{
    if i < j {
        lemma_steps_before_monotone(plan, i, (j - 1) as nat);
        assert(plan.steps_before(j) == plan.steps_before((j - 1) as nat) + plan.message_steps(
            (j - 1) as nat,
        ));
    }
}

/// Step `k` of message `m` stands in the schedule right after the steps of
/// the messages before it.
proof fn lemma_steps_at(plan: ProducerPlan, m: nat, k: int)
    requires
        m < plan.length,
        0 <= k < plan.message_steps(m).len(),
    ensures
        plan.schedule()[plan.steps_before(m).len() + k] == plan.message_steps(m)[k],
        plan.steps_before(m).len() + k < plan.schedule().len(),
{
    lemma_steps_before_len(plan, m);
    lemma_steps_before_monotone(plan, m + 1, plan.length as nat);
    assert(plan.steps_before(m + 1) == plan.steps_before(m) + plan.message_steps(m));
    assert(plan.steps_before(m + 1)[plan.steps_before(m).len() + k] == plan.message_steps(m)[k]);
}

/// Under `SplitByFour`, message `i` goes to channel 0 exactly when `i` is a
/// multiple of 4, and to channel 1 otherwise.
pub proof fn lemma_route(i: nat)
    ensures
        route(i) == 0 <==> i % 4 == 0,
        route(i) == 1 <==> i % 4 != 0,
{
}

/// The number of sends of each message: one per channel under `Broadcast`,
/// a single one under `SplitByFour`.
proof fn lemma_message_shape(plan: ProducerPlan, i: nat, t: nat)
    requires
        plan.well_formed(),
        t < (if plan.routing is Broadcast {
            plan.targets as nat
        } else {
            1nat
        }),
    ensures
        plan.message_steps(i).len() == (if plan.wait_before_each {
            1int
        } else {
            0
        }) + (if plan.credit is Unused {
            0int
        } else {
            1
        }) + (if plan.routing is Broadcast {
            plan.targets as int
        } else {
            1
        }),
        plan.wait_before_each ==> plan.message_steps(i)[0] == ProducerAction::CheckDrained,
        plan.credit is BeforeSend ==> plan.message_steps(i)[if plan.wait_before_each {
            1int
        } else {
            0
        }] == ProducerAction::AddCredit(plan.sends(i).len() as usize),
        plan.message_steps(i)[(if plan.wait_before_each {
            1int
        } else {
            0
        }) + (if plan.credit is BeforeSend {
            1int
        } else {
            0
        }) + t] == plan.sends(i)[t as int],
        plan.credit is AfterSend ==> plan.message_steps(i)[(if plan.wait_before_each {
            1int
        } else {
            0
        }) + plan.sends(i).len()] == ProducerAction::AddCredit(plan.sends(i).len() as usize),
{
}

proof fn lemma_steps_before_len_closed(plan: ProducerPlan, i: nat, per: int)
    requires
        plan.well_formed(),
        forall|j: nat| #[trigger] plan.message_steps(j).len() == per,
    ensures
        plan.steps_before(i).len() == i * per,
    decreases i,
{
    if i > 0 {
        let p = (i - 1) as nat;
        lemma_steps_before_len_closed(plan, p, per);
        lemma_steps_before_len(plan, p);
        assert(plan.message_steps(p).len() == per);
        assert(p * per + per == i * per) by (nonlinear_arith)
            requires
                p + 1 == i,
        ;
    } else {
        assert(i * per == 0) by (nonlinear_arith)
            requires
                i == 0,
        ;
    }
}

/// Where each step of a run stands. With `g` 1 when the producer waits
/// before each message (else 0), `c` 1 when the counter is credited (else
/// 0), and `n` the sends per message (the number of channels under
/// `Broadcast`, 1 under `SplitByFour`), message `i` takes the `g + c + n`
/// steps from `i * (g + c + n)` on: first the drain check (if it waits),
/// then, where the plan credits before sending, `AddCredit(n)` ahead of every
/// send; then send `t` carries value `i` to channel `t` (under `Broadcast`)
/// or to channel 0 when `i % 4 == 0` and channel 1 otherwise (under
/// `SplitByFour`); where the plan credits after sending, `AddCredit(n)`
/// follows the last send.
pub proof fn lemma_schedule_layout(plan: ProducerPlan, i: nat, t: nat)
    requires
        plan.well_formed(),
        i < plan.length,
        t < (if plan.routing is Broadcast {
            plan.targets as nat
        } else {
            1nat
        }),
    ensures
        ({
            let g: int = if plan.wait_before_each {
                1
            } else {
                0
            };
            let c: int = if plan.credit is Unused {
                0
            } else {
                1
            };
            let before: int = if plan.credit is BeforeSend {
                1
            } else {
                0
            };
            let n: int = if plan.routing is Broadcast {
                plan.targets as int
            } else {
                1
            };
            let start = i * (g + c + n);
            let target: usize = if plan.routing is Broadcast {
                t as usize
            } else if i % 4 == 0 {
                0
            } else {
                1
            };
            &&& start + g + c + n <= plan.schedule().len()
            &&& plan.wait_before_each ==> plan.schedule()[start] == ProducerAction::CheckDrained
            &&& plan.credit is BeforeSend ==> plan.schedule()[start + g]
                == ProducerAction::AddCredit(n as usize)
            &&& plan.schedule()[start + g + before + t] == (ProducerAction::Send {
                target,
                value: i as u64,
            })
            &&& plan.credit is AfterSend ==> plan.schedule()[start + g + n]
                == ProducerAction::AddCredit(n as usize)
        }),
{
    let g: int = if plan.wait_before_each {
        1
    } else {
        0
    };
    let c: int = if plan.credit is Unused {
        0
    } else {
        1
    };
    let n: int = if plan.routing is Broadcast {
        plan.targets as int
    } else {
        1
    };
    let per = g + c + n;
    lemma_message_shape(plan, i, t);
    assert forall|j: nat| #[trigger] plan.message_steps(j).len() == per by {
        lemma_message_shape(plan, j, t);
    }
    lemma_steps_before_len_closed(plan, i, per);
    lemma_steps_before_len_closed(plan, plan.length as nat, per);
    lemma_schedule_len(plan);
    let before: int = if plan.credit is BeforeSend {
        1
    } else {
        0
    };
    lemma_steps_at(plan, i, g + before + t as int);
    if plan.wait_before_each {
        lemma_steps_at(plan, i, 0);
    }
    if !(plan.credit is Unused) {
        lemma_steps_at(plan, i, if plan.credit is BeforeSend { g } else { g + n });
    }
    lemma_steps_before_monotone(plan, i + 1, plan.length as nat);
    lemma_steps_before_len(plan, i);
    assert(i * per + per == (i + 1) * per) by (nonlinear_arith);
}

/// A run takes `length * (g + c + n)` message steps (as in
/// `lemma_schedule_layout`), then, where the plan waits at the end, a drain
/// check, and last `Finish`.
pub proof fn lemma_schedule_end(plan: ProducerPlan)
    requires
        plan.well_formed(),
    ensures
        ({
            let per: int = (if plan.wait_before_each {
                1int
            } else {
                0
            }) + (if plan.credit is Unused {
                0int
            } else {
                1
            }) + (if plan.routing is Broadcast {
                plan.targets as int
            } else {
                1
            });
            let end = plan.length * per;
            &&& plan.schedule().len() == end + if plan.wait_at_end {
                2int
            } else {
                1
            }
            &&& plan.wait_at_end ==> plan.schedule()[end] == ProducerAction::CheckDrained
            &&& plan.schedule()[plan.schedule().len() - 1] == ProducerAction::Finish
        }),
{
    let per: int = (if plan.wait_before_each {
        1int
    } else {
        0
    }) + (if plan.credit is Unused {
        0int
    } else {
        1
    }) + (if plan.routing is Broadcast {
        plan.targets as int
    } else {
        1
    });
    assert forall|j: nat| #[trigger] plan.message_steps(j).len() == per by {
        lemma_message_len(plan, j);
    }
    lemma_steps_before_len_closed(plan, plan.length as nat, per);
    lemma_schedule_len(plan);
}

proof fn lemma_message_len(plan: ProducerPlan, i: nat)
    requires
        plan.well_formed(),
    ensures
        plan.message_steps(i).len() == (if plan.wait_before_each {
            1int
        } else {
            0
        }) + (if plan.credit is Unused {
            0int
        } else {
            1
        }) + (if plan.routing is Broadcast {
            plan.targets as int
        } else {
            1
        }),
{
}

/// The effects among `steps`, in order.
pub open spec fn effects_in(steps: Seq<ProducerAction>) -> Seq<ProducerAction>
    decreases steps.len(),
{
    if steps.len() == 0 {
        seq![]
    } else if is_effect(steps.last()) {
        effects_in(steps.drop_last()).push(steps.last())
    } else {
        effects_in(steps.drop_last())
    }
}

proof fn lemma_effects_in_concat(a: Seq<ProducerAction>, b: Seq<ProducerAction>)
    ensures
        effects_in(a + b) == effects_in(a) + effects_in(b),
    decreases b.len(),
{
    if b.len() == 0 {
        assert(a + b =~= a);
        assert(effects_in(a) + effects_in(b) =~= effects_in(a));
    } else {
        lemma_effects_in_concat(a, b.drop_last());
        assert((a + b).drop_last() =~= a + b.drop_last());
        if is_effect(b.last()) {
            assert(effects_in(a) + effects_in(b) =~= (effects_in(a) + effects_in(b.drop_last())).push(
                b.last(),
            ));
        }
    }
}

proof fn lemma_effects_in_all_effects(s: Seq<ProducerAction>)
    requires
        forall|k: int| 0 <= k < s.len() ==> is_effect(#[trigger] s[k]),
    ensures
        effects_in(s) == s,
    decreases s.len(),
{
    if s.len() > 0 {
        lemma_effects_in_all_effects(s.drop_last());
        assert(s.drop_last().push(s.last()) =~= s);
    }
}

proof fn lemma_effects_in_steps_before(plan: ProducerPlan, i: nat)
    requires
        plan.well_formed(),
    ensures
        effects_in(plan.steps_before(i)) == plan.effects_before(i),
    decreases i,
{
    if i > 0 {
        let p = (i - 1) as nat;
        lemma_effects_in_steps_before(plan, p);
        let e = plan.message_effects(p);
        let s = plan.sends(p);
        assert forall|k: int| 0 <= k < e.len() implies is_effect(#[trigger] e[k]) by {
            match plan.credit {
                Credit::BeforeSend => {
                    if k > 0 {
                        assert(e[k] == s[k - 1]);
                    }
                },
                Credit::AfterSend => {
                    if k < s.len() {
                        assert(e[k] == s[k]);
                    }
                },
                Credit::Unused => {
                    assert(e[k] == s[k]);
                },
            }
        }
        lemma_effects_in_all_effects(e);
        if plan.wait_before_each {
            let g = seq![ProducerAction::CheckDrained];
            lemma_effects_in_concat(g, e);
            assert(effects_in(g) =~= Seq::<ProducerAction>::empty()) by {
                assert(g.drop_last() =~= Seq::<ProducerAction>::empty());
                assert(effects_in(g) == effects_in(g.drop_last()));
            }
            assert(effects_in(g) + effects_in(e) =~= e);
        }
        lemma_effects_in_concat(plan.steps_before(p), plan.message_steps(p));
    }
}

/// The effects a producer asks for over its whole schedule are exactly its
/// plan's effects, in order: drain checks, pauses and `Finish` change
/// nothing outside.
pub proof fn lemma_schedule_effects(plan: ProducerPlan)
    requires
        plan.well_formed(),
    ensures
        effects_in(plan.schedule()) == plan.all_effects(),
{
    lemma_effects_in_steps_before(plan, plan.length as nat);
    lemma_effects_in_concat(plan.steps_before(plan.length as nat), plan.closing());
    let c = plan.closing();
    assert(effects_in(c) =~= Seq::<ProducerAction>::empty()) by {
        if plan.wait_at_end {
            assert(c.drop_last() =~= seq![ProducerAction::CheckDrained]);
            assert(c.drop_last().drop_last() =~= Seq::<ProducerAction>::empty());
            assert(effects_in(c.drop_last()) == effects_in(c.drop_last().drop_last()));
            assert(effects_in(c) == effects_in(c.drop_last()));
        } else {
            assert(c.drop_last() =~= Seq::<ProducerAction>::empty());
            assert(effects_in(c) == effects_in(c.drop_last()));
        }
    }
    assert(plan.all_effects() + effects_in(c) =~= plan.all_effects());
}

/// The schedule ends with `Finish`, and nothing before it finishes: a
/// producer finishes exactly once it has been through all its steps.
pub proof fn lemma_schedule_ends_with_finish(plan: ProducerPlan, k: int)
    requires
        plan.well_formed(),
        0 <= k < plan.schedule().len(),
    ensures
        plan.schedule().last() is Finish,
        plan.schedule()[k] is Finish <==> k == plan.schedule().len() - 1,
{
    lemma_schedule_len(plan);
    let sb = plan.steps_before(plan.length as nat);
    if k < sb.len() {
        lemma_no_finish_before(plan, plan.length as nat);
    }
}

proof fn lemma_no_finish_before(plan: ProducerPlan, i: nat)
    requires
        plan.well_formed(),
    ensures
        forall|k: int| 0 <= k < plan.steps_before(i).len() ==> !(#[trigger] plan.steps_before(i)[k] is Finish),
    decreases i,
{
    if i > 0 {
        let p = (i - 1) as nat;
        lemma_no_finish_before(plan, p);
        let st = plan.message_steps(p);
        let e = plan.message_effects(p);
        let s = plan.sends(p);
        assert(plan.steps_before(i) == plan.steps_before(p) + st);
        assert forall|k: int| 0 <= k < st.len() implies !(#[trigger] st[k] is Finish) by {
            let j = if plan.wait_before_each { k - 1 } else { k };
            if j >= 0 {
                assert(st[k] == e[j]);
                match plan.credit {
                    Credit::BeforeSend => {
                        if j > 0 {
                            assert(e[j] == s[j - 1]);
                        }
                    },
                    Credit::AfterSend => {
                        if j < s.len() {
                            assert(e[j] == s[j]);
                        }
                    },
                    Credit::Unused => {
                        assert(e[j] == s[j]);
                    },
                }
            }
        }
        assert forall|k: int| 0 <= k < plan.steps_before(i).len() implies !(#[trigger] plan.steps_before(i)[k] is Finish) by {
            if k >= plan.steps_before(p).len() {
                assert(plan.steps_before(i)[k] == st[k - plan.steps_before(p).len()]);
            } else {
                assert(plan.steps_before(i)[k] == plan.steps_before(p)[k]);
            }
        }
    }
}

/// The deliveries credited to the counter by `effects`.
pub open spec fn credited(effects: Seq<ProducerAction>) -> int
    decreases effects.len(),
{
    if effects.len() == 0 {
        0
    } else {
        credited(effects.drop_last()) + match effects.last() {
            ProducerAction::AddCredit(n) => n as int,
            _ => 0,
        }
    }
}

/// The number of sends in `effects`.
pub open spec fn deliveries(effects: Seq<ProducerAction>) -> int
    decreases effects.len(),
{
    if effects.len() == 0 {
        0
    } else {
        deliveries(effects.drop_last()) + if effects.last() is Send {
            1int
        } else {
            0
        }
    }
}

proof fn lemma_counts_concat(a: Seq<ProducerAction>, b: Seq<ProducerAction>)
    ensures
        credited(a + b) == credited(a) + credited(b),
        deliveries(a + b) == deliveries(a) + deliveries(b),
    decreases b.len(),
{
    if b.len() > 0 {
        lemma_counts_concat(a, b.drop_last());
        assert((a + b).drop_last() =~= a + b.drop_last());
    } else {
        assert(a + b =~= a);
    }
}

proof fn lemma_counts_of_sends(s: Seq<ProducerAction>)
    requires
        forall|k: int| 0 <= k < s.len() ==> #[trigger] s[k] is Send,
    ensures
        credited(s) == 0,
        deliveries(s) == s.len(),
    decreases s.len(),
{
    if s.len() > 0 {
        lemma_counts_of_sends(s.drop_last());
    }
}

/// A message credits the counter with exactly as many deliveries as it
/// sends, whenever the plan uses the counter: once each receiver has
/// acknowledged its copy, the counter is back where it was.
pub proof fn lemma_message_credit_balances(plan: ProducerPlan, i: nat)
    requires
        plan.well_formed(),
        !(plan.credit is Unused),
    ensures
        credited(plan.message_effects(i)) == deliveries(plan.message_effects(i)),
        deliveries(plan.message_effects(i)) == plan.sends(i).len(),
{
    let s = plan.sends(i);
    lemma_counts_of_sends(s);
    let c = seq![ProducerAction::AddCredit(s.len() as usize)];
    lemma_counts_of_sends(Seq::<ProducerAction>::empty());
    assert(credited(c) == s.len()) by {
        assert(c.drop_last() =~= Seq::<ProducerAction>::empty());
    }
    assert(deliveries(c) == 0) by {
        assert(c.drop_last() =~= Seq::<ProducerAction>::empty());
    }
    match plan.credit {
        Credit::BeforeSend => {
            lemma_counts_concat(c, s);
        },
        Credit::AfterSend => {
            lemma_counts_concat(s, c);
            assert(s + c =~= s.push(ProducerAction::AddCredit(s.len() as usize)));
        },
        Credit::Unused => {},
    }
}

/// Over a whole run, a producer that uses the counter credits it with
/// exactly as many deliveries as it sends.
pub proof fn lemma_run_credit_balances(plan: ProducerPlan)
    requires
        plan.well_formed(),
        !(plan.credit is Unused),
    ensures
        credited(plan.all_effects()) == deliveries(plan.all_effects()),
{
    lemma_prefix_credit_balances(plan, plan.length as nat);
}

proof fn lemma_prefix_credit_balances(plan: ProducerPlan, i: nat)
    requires
        plan.well_formed(),
        !(plan.credit is Unused),
    ensures
        credited(plan.effects_before(i)) == deliveries(plan.effects_before(i)),
    decreases i,
{
    if i == 0 {
        lemma_counts_of_sends(plan.effects_before(0));
    } else {
        lemma_prefix_credit_balances(plan, (i - 1) as nat);
        lemma_message_credit_balances(plan, (i - 1) as nat);
        lemma_counts_concat(plan.effects_before((i - 1) as nat), plan.message_effects((i - 1) as nat));
    }
}

proof fn lemma_message_send_values(plan: ProducerPlan, i: nat)
    requires
        plan.well_formed(),
        i < plan.length,
    ensures
        forall|k: int|
            0 <= k < plan.message_effects(i).len() && (#[trigger] plan.message_effects(i)[k]) is Send
                ==> plan.message_effects(i)[k]->value == i,
{
    let s = plan.sends(i);
    assert forall|k: int| 0 <= k < s.len() implies (#[trigger] s[k]) is Send && s[k]->value == i by {
    }
    let e = plan.message_effects(i);
    assert forall|k: int| 0 <= k < e.len() && (#[trigger] e[k]) is Send implies e[k]->value == i by {
        match plan.credit {
            Credit::BeforeSend => {
                assert(e[k] == s[k - 1]);
            },
            Credit::AfterSend => {
                assert(e[k] == s[k]);
            },
            Credit::Unused => {},
        }
    }
}

proof fn lemma_sends_in_order_before(plan: ProducerPlan, i: nat)
    requires
        plan.well_formed(),
        i <= plan.length,
    ensures
        forall|k: int|
            0 <= k < plan.effects_before(i).len() && (#[trigger] plan.effects_before(i)[k]) is Send
                ==> plan.effects_before(i)[k]->value < i,
        forall|j: int, k: int|
            0 <= j < k < plan.effects_before(i).len() && (#[trigger] plan.effects_before(i)[j]) is Send
                && (#[trigger] plan.effects_before(i)[k]) is Send ==> plan.effects_before(i)[j]->value
                <= plan.effects_before(i)[k]->value,
    decreases i,
{
    if i > 0 {
        let p = (i - 1) as nat;
        lemma_sends_in_order_before(plan, p);
        lemma_message_send_values(plan, p);
        let b = plan.effects_before(p);
        let e = plan.message_effects(p);
        assert(plan.effects_before(i) == b + e);
        assert forall|k: int| 0 <= k < (b + e).len() && (#[trigger] (b + e)[k]) is Send implies (b
            + e)[k]->value < i by {
            if k >= b.len() {
                assert((b + e)[k] == e[k - b.len()]);
            }
        }
        assert forall|j: int, k: int|
            0 <= j < k < (b + e).len() && (#[trigger] (b + e)[j]) is Send && (#[trigger] (b
                + e)[k]) is Send implies (b + e)[j]->value <= (b + e)[k]->value by {
            if k < b.len() {
                assert((b + e)[j] == b[j]);
                assert((b + e)[k] == b[k]);
            } else if j >= b.len() {
                assert((b + e)[j] == e[j - b.len()]);
                assert((b + e)[k] == e[k - b.len()]);
            } else {
                assert((b + e)[j] == b[j]);
                assert((b + e)[k] == e[k - b.len()]);
            }
        }
    }
}

/// Messages go out in order: in the effects of a run, no send carries a
/// smaller value than a send before it.
pub proof fn lemma_sends_in_order(plan: ProducerPlan, j: int, k: int)
    requires
        plan.well_formed(),
        0 <= j < k < plan.all_effects().len(),
        plan.all_effects()[j] is Send,
        plan.all_effects()[k] is Send,
    ensures
        plan.all_effects()[j]->value <= plan.all_effects()[k]->value,
{
    lemma_sends_in_order_before(plan, plan.length as nat);
}

/// Under `Broadcast`, each message reaches every channel exactly once.
pub proof fn lemma_broadcast_reaches_each_target_once(plan: ProducerPlan, i: nat, target: usize)
    requires
        plan.well_formed(),
        plan.routing is Broadcast,
        target < plan.targets,
    ensures
        plan.sends(i)[target as int] == (ProducerAction::Send { target, value: i as u64 }),
        forall|k: int|
            0 <= k < plan.sends(i).len() && (#[trigger] plan.sends(i)[k])->target == target ==> k
                == target,
{
}

} // verus!
