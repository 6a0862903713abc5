use mt_comms::consumer::{Consumer, ConsumerAction, ConsumerPlan, ConsumerReport, Outcome};
use mt_comms::consumer::Outcome::{Closed, Empty, Item};

/// Drives a consumer over the given outcomes; returns every action.
fn run(plan: ConsumerPlan, outcomes: &[Outcome]) -> Vec<ConsumerAction> {
    let mut consumer = Consumer::new(plan);
    let mut report = ConsumerReport::Done;
    let mut next = outcomes.iter();
    let mut actions = Vec::new();
    loop {
        let action = consumer.next_action(report);
        actions.push(action);
        report = match action {
            ConsumerAction::Receive { .. } => {
                ConsumerReport::Received(*next.next().unwrap_or(&Outcome::Closed))
            }
            ConsumerAction::Acknowledge => ConsumerReport::Done,
            ConsumerAction::Stop => break,
        };
    }
    actions
}

fn recv(source: usize) -> ConsumerAction {
    ConsumerAction::Receive { source }
}

#[test]
fn acknowledging_consumer_acks_each_message_then_stops_on_close() {
    let actions = run(ConsumerPlan::acknowledging(), &[Item, Item, Closed]);
    assert_eq!(
        actions,
        vec![
            recv(0),
            ConsumerAction::Acknowledge,
            recv(0),
            ConsumerAction::Acknowledge,
            recv(0),
            ConsumerAction::Stop
        ]
    );
}

#[test]
fn draining_consumer_never_acknowledges() {
    let actions = run(ConsumerPlan::draining(), &[Item, Empty, Item, Closed]);
    assert_eq!(actions, vec![recv(0), recv(0), recv(0), recv(0), ConsumerAction::Stop]);
}

#[test]
fn closed_at_once_stops_at_once() {
    assert_eq!(
        run(ConsumerPlan::acknowledging(), &[Outcome::Closed]),
        vec![recv(0), ConsumerAction::Stop]
    );
}

#[test]
fn alternating_pair_tries_both_channels_in_turn() {
    let actions = run(ConsumerPlan::alternating_pair(), &[Item, Empty, Empty, Item, Closed]);
    assert_eq!(
        actions,
        vec![recv(0), recv(1), recv(0), recv(1), recv(0), ConsumerAction::Stop]
    );
}

#[test]
fn alternating_pair_stops_when_second_channel_closes() {
    let actions = run(ConsumerPlan::alternating_pair(), &[Item, Closed]);
    assert_eq!(actions, vec![recv(0), recv(1), ConsumerAction::Stop]);
}

#[test]
fn acknowledgements_match_messages() {
    let outcomes = [Item, Empty, Item, Item, Empty, Item, Closed];
    let actions = run(ConsumerPlan::acknowledging(), &outcomes);
    let acks = actions.iter().filter(|a| **a == ConsumerAction::Acknowledge).count();
    assert_eq!(acks, 4);
}

#[test]
fn stopped_consumer_keeps_stopping() {
    let mut consumer = Consumer::new(ConsumerPlan::draining());
    assert_eq!(consumer.next_action(ConsumerReport::Done), recv(0));
    assert_eq!(
        consumer.next_action(ConsumerReport::Received(Outcome::Closed)),
        ConsumerAction::Stop
    );
    assert_eq!(
        consumer.next_action(ConsumerReport::Received(Outcome::Item)),
        ConsumerAction::Stop
    );
}

#[test]
fn consumer_plan_constructors() {
    let p = ConsumerPlan::acknowledging();
    assert_eq!((p.sources, p.acknowledge), (1, true));
    let p = ConsumerPlan::draining();
    assert_eq!((p.sources, p.acknowledge), (1, false));
    let p = ConsumerPlan::alternating_pair();
    assert_eq!((p.sources, p.acknowledge), (2, false));
}
