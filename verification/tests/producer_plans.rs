use mt_comms::producer::{
    channel_for, Credit, Producer, ProducerAction, ProducerPlan, ProducerReport, Routing,
};
use mt_comms::producer::ProducerAction::{AddCredit, CheckDrained, Finish, Sleep};

/// Drives a producer to the end; each drain check reads pending
/// `busy_reads` times before it reads drained. Returns every action asked for.
fn run(plan: ProducerPlan, busy_reads: usize) -> Vec<ProducerAction> {
    let mut producer = Producer::new(plan);
    let mut report = ProducerReport::Done;
    let mut actions = Vec::new();
    let mut busy_left = busy_reads;
    loop {
        let action = producer.next_action(report);
        actions.push(action);
        report = match action {
            ProducerAction::CheckDrained => {
                if busy_left > 0 {
                    busy_left -= 1;
                    ProducerReport::Pending
                } else {
                    busy_left = busy_reads;
                    ProducerReport::Drained
                }
            }
            ProducerAction::Finish => break,
            _ => ProducerReport::Done,
        };
        assert!(actions.len() < 100_000);
    }
    actions
}

fn effects(actions: &[ProducerAction]) -> Vec<ProducerAction> {
    actions
        .iter()
        .copied()
        .filter(|a| matches!(a, ProducerAction::AddCredit(_) | ProducerAction::Send { .. }))
        .collect()
}

fn send(target: usize, value: u64) -> ProducerAction {
    ProducerAction::Send { target, value }
}

#[test]
fn paced_broadcast_waits_credits_then_sends() {
    let actions = run(ProducerPlan::paced_broadcast(2, 2), 0);
    assert_eq!(
        actions,
        vec![
            CheckDrained,
            AddCredit(2),
            send(0, 0),
            send(1, 0),
            CheckDrained,
            AddCredit(2),
            send(0, 1),
            send(1, 1),
            CheckDrained,
            Finish
        ]
    );
}

#[test]
fn pending_work_makes_the_producer_sleep_and_recheck() {
    let actions = run(ProducerPlan::paced_broadcast(1, 1), 2);
    assert_eq!(
        actions,
        vec![
            CheckDrained,
            Sleep,
            CheckDrained,
            Sleep,
            CheckDrained,
            AddCredit(1),
            send(0, 0),
            CheckDrained,
            Sleep,
            CheckDrained,
            Sleep,
            CheckDrained,
            Finish
        ]
    );
}

#[test]
fn broadcast_sends_every_message_to_every_channel_in_order() {
    let actions = run(ProducerPlan::broadcast(3, 3), 0);
    let mut expected = Vec::new();
    for i in 0..3u64 {
        for t in 0..3 {
            expected.push(send(t, i));
        }
    }
    expected.push(ProducerAction::Finish);
    assert_eq!(actions, expected);
}

#[test]
fn broadcast_to_no_channel_finishes_at_once() {
    assert_eq!(run(ProducerPlan::broadcast(5, 0), 0), vec![ProducerAction::Finish]);
}

#[test]
fn paced_broadcast_to_no_channel_still_credits_zero() {
    let actions = run(ProducerPlan::paced_broadcast(2, 0), 0);
    assert_eq!(
        actions,
        vec![CheckDrained, AddCredit(0), CheckDrained, AddCredit(0), CheckDrained, Finish]
    );
}

#[test]
fn zero_messages_only_waits_at_end() {
    assert_eq!(
        run(ProducerPlan::paced_broadcast(0, 4), 0),
        vec![ProducerAction::CheckDrained, ProducerAction::Finish]
    );
    assert_eq!(run(ProducerPlan::single(0), 0), vec![ProducerAction::Finish]);
}

#[test]
fn credit_before_and_after_send() {
    assert_eq!(
        run(ProducerPlan::paced_single(2, Credit::BeforeSend), 0),
        vec![CheckDrained, AddCredit(1), send(0, 0), CheckDrained, AddCredit(1), send(0, 1), Finish]
    );
    assert_eq!(
        run(ProducerPlan::paced_single(2, Credit::AfterSend), 0),
        vec![CheckDrained, send(0, 0), AddCredit(1), CheckDrained, send(0, 1), AddCredit(1), Finish]
    );
}

#[test]
fn drained_single_checks_the_channel_without_credit() {
    assert_eq!(
        run(ProducerPlan::drained_single(2), 1),
        vec![CheckDrained, Sleep, CheckDrained, send(0, 0), CheckDrained, Sleep, CheckDrained, send(0, 1), Finish]
    );
}

#[test]
fn split_pair_sends_every_fourth_message_to_channel_zero() {
    let actions = run(ProducerPlan::split_pair(9), 0);
    let expected: Vec<ProducerAction> = (0..9u64)
        .map(|i| send(if i % 4 == 0 { 0 } else { 1 }, i))
        .chain(std::iter::once(ProducerAction::Finish))
        .collect();
    assert_eq!(actions, expected);
}

#[test]
fn channel_for_routes_by_four() {
    assert_eq!(channel_for(0), 0);
    assert_eq!(channel_for(1), 1);
    assert_eq!(channel_for(3), 1);
    assert_eq!(channel_for(4), 0);
    assert_eq!(channel_for(u32::MAX), 1);
    assert_eq!(channel_for(4_000_000_000), 0);
}

#[test]
fn finished_producer_keeps_finishing() {
    let mut producer = Producer::new(ProducerPlan::single(1));
    assert_eq!(producer.next_action(ProducerReport::Done), send(0, 0));
    assert_eq!(producer.next_action(ProducerReport::Done), ProducerAction::Finish);
    assert_eq!(producer.next_action(ProducerReport::Drained), ProducerAction::Finish);
    assert_eq!(producer.next_action(ProducerReport::Done), ProducerAction::Finish);
}

#[test]
fn credit_balances_deliveries_over_a_run() {
    for busy in 0..3 {
        let actions = effects(&run(ProducerPlan::paced_broadcast(7, 3), busy));
        let credited: usize = actions
            .iter()
            .map(|a| if let ProducerAction::AddCredit(n) = a { *n } else { 0 })
            .sum();
        let sends = actions.iter().filter(|a| matches!(a, ProducerAction::Send { .. })).count();
        assert_eq!(credited, sends);
        assert_eq!(sends, 21);
    }
}

#[test]
fn sends_go_out_in_message_order() {
    let actions = effects(&run(ProducerPlan::paced_broadcast(5, 4), 1));
    let values: Vec<u64> = actions
        .iter()
        .filter_map(|a| if let ProducerAction::Send { value, .. } = a { Some(*value) } else { None })
        .collect();
    assert!(values.windows(2).all(|w| w[0] <= w[1]));
    assert_eq!(values.len(), 20);
}

#[test]
fn plan_constructors_set_every_field() {
    let p = ProducerPlan::paced_broadcast(10, 3);
    assert_eq!((p.length, p.targets, p.routing, p.credit, p.wait_before_each, p.wait_at_end),
        (10, 3, Routing::Broadcast, Credit::BeforeSend, true, true));
    let p = ProducerPlan::split_pair(4);
    assert_eq!((p.length, p.targets, p.routing, p.credit, p.wait_before_each, p.wait_at_end),
        (4, 2, Routing::SplitByFour, Credit::Unused, false, false));
    let p = ProducerPlan::drained_single(4);
    assert_eq!((p.targets, p.credit, p.wait_before_each, p.wait_at_end), (1, Credit::Unused, true, false));
}
