use fan_in::aggregator::Aggregator;
use fan_in::assemble;
use fan_in::producer::{Plan, Producer};

fn plan(name: &str, values: Vec<i32>, pause_ms: u64) -> Plan {
    Plan { name: name.to_string(), values, pause_ms }
}

/// Lets the workers take turns as `schedule` says, each turn one
/// announcement and one send, and hands back the lines they announced.
fn take_turns(workers: &mut Vec<Producer>, schedule: &[usize]) -> Vec<String> {
    let mut printed = Vec::new();
    for turn in schedule {
        let worker = &mut workers[*turn];
        let notice = worker.announce().expect("the schedule asks for more than the script holds");
        printed.push(notice.line);
        assert_eq!(worker.emit(), Ok(Some(notice.value)));
    }
    printed
}

fn release_all(workers: Vec<Producer>) {
    for worker in workers {
        assert!(worker.is_exhausted());
        assert!(worker.announce().is_none());
        worker.release();
    }
}

fn drain(aggregator: &mut Aggregator) -> Vec<String> {
    let mut printed = Vec::new();
    while let Some(line) = aggregator.receive() {
        printed.push(line);
    }
    printed
}

fn sorted(values: &[i32]) -> Vec<i32> {
    let mut copy = values.to_vec();
    copy.sort();
    copy
}

fn check_two_producers_of_five(schedule: &[usize]) {
    let (mut workers, mut aggregator) = assemble(vec![
        plan("1st thread", vec![1, 2, 3, 4, 5], 300),
        plan("2nd thread", vec![51, 52, 53, 54, 55], 300),
    ]);
    let announced = take_turns(&mut workers, schedule);
    release_all(workers);
    let printed = drain(&mut aggregator);

    let received = aggregator.received().clone();
    assert_eq!(received.len(), 10);
    assert_eq!(sorted(&received), vec![1, 2, 3, 4, 5, 51, 52, 53, 54, 55]);
    let first: Vec<i32> = received.iter().copied().filter(|v| *v <= 5).collect();
    let second: Vec<i32> = received.iter().copied().filter(|v| *v > 50).collect();
    assert_eq!(first, vec![1, 2, 3, 4, 5]);
    assert_eq!(second, vec![51, 52, 53, 54, 55]);

    let expected: Vec<String> = received.iter().map(|v| format!("received: {}", v)).collect();
    assert_eq!(printed, expected);
    let own: Vec<String> =
        announced.iter().filter(|line| line.ends_with("1st thread")).cloned().collect();
    assert_eq!(
        own,
        vec![
            "Sending 1 through 1st thread",
            "Sending 2 through 1st thread",
            "Sending 3 through 1st thread",
            "Sending 4 through 1st thread",
            "Sending 5 through 1st thread",
        ]
    );
    assert_eq!(announced.len(), 10);
    assert!(aggregator.is_closed());
}

#[test]
fn two_producers_of_five_values_each() {
    check_two_producers_of_five(&[0, 1, 0, 1, 0, 1, 0, 1, 0, 1]);
}

#[test]
fn two_producers_of_five_values_each_one_after_the_other() {
    check_two_producers_of_five(&[0, 0, 0, 0, 0, 1, 1, 1, 1, 1]);
    check_two_producers_of_five(&[1, 1, 1, 1, 1, 0, 0, 0, 0, 0]);
}

#[test]
fn two_producers_of_five_values_each_in_uneven_turns() {
    check_two_producers_of_five(&[1, 0, 0, 1, 1, 1, 0, 0, 1, 0]);
}

#[test]
fn two_producers_received_while_they_send() {
    let (mut workers, mut aggregator) = assemble(vec![
        plan("1st thread", vec![1, 2, 3, 4, 5], 300),
        plan("2nd thread", vec![51, 52, 53, 54, 55], 300),
    ]);
    let mut printed = Vec::new();
    for round in 0..5 {
        take_turns(&mut workers, &[1, 0]);
        printed.push(aggregator.receive().unwrap());
        if round % 2 == 1 {
            printed.push(aggregator.receive().unwrap());
            printed.push(aggregator.receive().unwrap());
        }
    }
    release_all(workers);
    printed.extend(drain(&mut aggregator));
    assert_eq!(
        printed,
        vec![
            "received: 51",
            "received: 1",
            "received: 52",
            "received: 2",
            "received: 53",
            "received: 3",
            "received: 54",
            "received: 4",
            "received: 55",
            "received: 5",
        ]
    );
    assert_eq!(aggregator.received(), &vec![51, 1, 52, 2, 53, 3, 54, 4, 55, 5]);
}

#[test]
fn single_producer_of_no_values() {
    let (mut workers, mut aggregator) = assemble(vec![plan("idle", Vec::new(), 300)]);
    assert_eq!(workers.len(), 1);
    let announced = take_turns(&mut workers, &[]);
    assert!(workers[0].announce().is_none());
    assert_eq!(workers[0].emit(), Ok(None));
    release_all(workers);
    let printed = drain(&mut aggregator);
    assert!(announced.is_empty());
    assert!(printed.is_empty());
    assert!(aggregator.received().is_empty());
    assert!(aggregator.is_closed());
}

#[test]
fn each_producers_order_is_kept_under_a_mixed_schedule() {
    let (mut workers, mut aggregator) = assemble(vec![
        plan("a", vec![10, 20, 30], 0),
        plan("b", vec![11, 21], 0),
        plan("c", vec![12, 22, 32, 42], 0),
    ]);
    take_turns(&mut workers, &[2, 0, 0, 1, 2, 2, 1, 0, 2]);
    release_all(workers);
    drain(&mut aggregator);
    let received = aggregator.received().clone();
    assert_eq!(received, vec![12, 10, 20, 11, 22, 32, 21, 30, 42]);
    for (digit, script) in [(0, vec![10, 20, 30]), (1, vec![11, 21]), (2, vec![12, 22, 32, 42])] {
        let own: Vec<i32> = received.iter().copied().filter(|v| v % 10 == digit).collect();
        assert_eq!(own, script);
    }
}

#[test]
fn received_values_are_the_sent_values_with_repeats() {
    let (mut workers, mut aggregator) =
        assemble(vec![plan("a", vec![5, 5, 7], 0), plan("b", vec![7, 5], 0)]);
    take_turns(&mut workers, &[1, 0, 0, 1, 0]);
    release_all(workers);
    drain(&mut aggregator);
    assert_eq!(aggregator.received(), &vec![7, 5, 5, 5, 7]);
    assert_eq!(sorted(aggregator.received()), sorted(&[5, 5, 7, 7, 5]));
}

#[test]
fn nothing_arrives_after_the_last_handle_is_released() {
    let (mut workers, mut aggregator) = assemble(vec![plan("a", vec![1, 2], 0)]);
    let mut worker = workers.remove(0);
    assert_eq!(worker.emit(), Ok(Some(1)));
    assert_eq!(worker.emit(), Ok(Some(2)));
    worker.release();
    assert_eq!(drain(&mut aggregator), vec!["received: 1", "received: 2"]);
    assert!(aggregator.is_closed());
    for _ in 0..3 {
        assert_eq!(aggregator.receive(), None);
    }
    assert_eq!(aggregator.received(), &vec![1, 2]);
}
