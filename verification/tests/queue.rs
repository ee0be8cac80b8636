use starscript::dbqueue::{CallbackTaskBuilder, DBQueue, NamedQueue, Task, TaskPriority};

fn task(uuid: u128, priority: TaskPriority, timestamp: i64, only_run_after: Option<i64>) -> Task {
    Task {
        uuid,
        priority,
        timestamp,
        only_run_after,
        command: "work".to_string(),
        parameters: Vec::new(),
        callback: None,
    }
}

fn single_queue(tasks: Vec<Task>) -> DBQueue {
    let nq = NamedQueue {
        name: "main".to_string(),
        tasks,
    };
    DBQueue::new(vec![nq], "main".to_string())
}

#[test]
fn priority_ordering_drains_ascending() {
    let t_low = task(1, TaskPriority::Low, 10, None);
    let t_asap = task(2, TaskPriority::ASAP, 40, None);
    let t_normal = task(3, TaskPriority::Normal, 20, None);
    let t_high = task(4, TaskPriority::High, 30, None);
    let mut q = single_queue(vec![t_low, t_asap, t_normal, t_high]);

    let expected = [2u128, 4, 3, 1];
    for uuid in expected {
        let got = q.dequeue_eligible(100).expect("a task should be eligible");
        assert_eq!(got.uuid, uuid);
        q.finish_task(got);
    }
    assert!(q.dequeue_eligible(100).is_none());
}

#[test]
fn priority_tie_breaks_by_creation_time() {
    let older = task(1, TaskPriority::Normal, 5, None);
    let newer = task(2, TaskPriority::Normal, 9, None);
    let mut q = single_queue(vec![newer, older]);
    let got = q.dequeue_eligible(50).unwrap();
    assert_eq!(got.uuid, 1);
    q.finish_task(got);
    assert_eq!(q.dequeue_eligible(50).unwrap().uuid, 2);
}

#[test]
fn deferred_task_ineligible_until_time_passes() {
    let deferred = task(1, TaskPriority::ASAP, 5, Some(10_000));
    let plain = task(2, TaskPriority::Low, 6, None);
    let q = single_queue(vec![deferred, plain]);

    // Before the earliest-run time, even the higher-priority task is passed over.
    assert_eq!(q.dequeue_eligible(9_999).unwrap().uuid, 2);
    // Once it passes, priority order applies again.
    assert_eq!(q.dequeue_eligible(10_000).unwrap().uuid, 1);
}

#[test]
fn deferred_only_task_gives_empty_queue() {
    let deferred = task(1, TaskPriority::Normal, 5, Some(500));
    let q = single_queue(vec![deferred]);
    assert!(q.dequeue_eligible(499).is_none());
    assert_eq!(q.dequeue_eligible(500).unwrap().uuid, 1);
}

#[test]
fn finish_without_callback_removes_record() {
    let a = task(1, TaskPriority::Normal, 5, None);
    let b = task(2, TaskPriority::Normal, 6, None);
    let mut q = single_queue(vec![a, b]);
    let got = q.dequeue_eligible(10).unwrap();
    assert_eq!(got.uuid, 1);
    q.finish_task(got);
    // The finished record is gone and nothing new appeared anywhere.
    let next = q.dequeue_eligible(10).unwrap();
    assert_eq!(next.uuid, 2);
    q.finish_task(next);
    assert!(q.dequeue_eligible(10).is_none());
}

#[test]
fn finish_with_callback_enqueues_continuation() {
    let cb = CallbackTaskBuilder::new(
        "main".to_string(),
        TaskPriority::High,
        None,
        "continuation".to_string(),
        vec![("key".to_string(), "value".to_string())],
    );
    let mut original = task(1, TaskPriority::Normal, 5, None);
    original.callback = Some(cb);
    let mut q = single_queue(vec![original]);

    let got = q.dequeue_eligible(10).unwrap();
    assert_eq!(got.uuid, 1);
    q.finish_task(got);

    // Exactly one new task exists, carrying the descriptor's payload.
    let cont = q.dequeue_eligible(10).expect("continuation should be queued");
    assert_eq!(cont.command, "continuation");
    assert!(matches!(cont.priority, TaskPriority::High));
    assert_eq!(cont.parameters.len(), 1);
    assert_eq!(cont.parameters[0].0, "key");
    assert_eq!(cont.parameters[0].1, "value");
    assert!(cont.callback.is_none());
    q.finish_task(cont);
    assert!(q.dequeue_eligible(10).is_none());
}

#[test]
fn defer_preserves_identity() {
    let mut original = task(7, TaskPriority::High, 42, None);
    original.command = "survey".to_string();
    original.parameters = vec![("ship_symbol".to_string(), "GREEN-1".to_string())];
    let mut q = single_queue(vec![original]);

    let got = q.dequeue_eligible(100).unwrap();
    q.update_task_run_after(got, 5_000);

    // Ineligible until the new earliest-run time.
    assert!(q.dequeue_eligible(4_999).is_none());
    let after = q.dequeue_eligible(5_000).unwrap();
    // Identical to the original but for the earliest-run time.
    assert_eq!(after.uuid, 7);
    assert!(matches!(after.priority, TaskPriority::High));
    assert_eq!(after.timestamp, 42);
    assert_eq!(after.only_run_after, Some(5_000));
    assert_eq!(after.command, "survey");
    assert_eq!(after.parameters.len(), 1);
    assert_eq!(after.parameters[0].1, "GREEN-1");
}

#[test]
fn defer_of_unknown_identity_changes_nothing() {
    let a = task(1, TaskPriority::Normal, 5, None);
    let mut q = single_queue(vec![a]);
    let unknown_task = task(99, TaskPriority::Normal, 5, None);
    q.update_task_run_after(unknown_task, 10_000);
    assert_eq!(q.dequeue_eligible(10).unwrap().uuid, 1);
}

#[test]
fn send_task_any_queue_reaches_other_queue() {
    let q1 = NamedQueue {
        name: "alpha".to_string(),
        tasks: Vec::new(),
    };
    let q2 = NamedQueue {
        name: "beta".to_string(),
        tasks: Vec::new(),
    };
    // A handle bound to beta sees what was sent to beta, not to alpha.
    let mut q = DBQueue::new(vec![q1, q2], "beta".to_string());
    q.send_task_any_queue("alpha".to_string(), task(1, TaskPriority::Normal, 1, None));
    q.send_task_any_queue("beta".to_string(), task(2, TaskPriority::Normal, 2, None));
    assert_eq!(q.dequeue_eligible(10).unwrap().uuid, 2);
}

#[test]
fn send_task_and_get_task_round_trip() {
    let mut q = single_queue(Vec::new());
    q.send_task(task(5, TaskPriority::ASAP, 1, None));
    // get_task reads the wall clock; a task with no earliest-run time is
    // eligible at every reading.
    let got = q.get_task().expect("the task is always eligible");
    assert_eq!(got.uuid, 5);
}

#[test]
fn task_new_pins_payload() {
    let t = Task::new(
        TaskPriority::Low,
        Some(77),
        "refresh_fleet".to_string(),
        vec![("a".to_string(), "b".to_string())],
        None,
    );
    assert!(matches!(t.priority, TaskPriority::Low));
    assert_eq!(t.only_run_after, Some(77));
    assert_eq!(t.command, "refresh_fleet");
    assert_eq!(t.parameters.len(), 1);
    assert!(t.callback.is_none());
}

#[test]
fn task_get_parameter_finds_first_match() {
    let t = Task {
        uuid: 1,
        priority: TaskPriority::Normal,
        timestamp: 0,
        only_run_after: None,
        command: "c".to_string(),
        parameters: vec![
            ("x".to_string(), "first".to_string()),
            ("y".to_string(), "other".to_string()),
            ("x".to_string(), "second".to_string()),
        ],
        callback: None,
    };
    assert_eq!(t.get_parameter(&"x".to_string()).unwrap(), "first");
    assert_eq!(t.get_parameter(&"y".to_string()).unwrap(), "other");
    assert!(t.get_parameter(&"z".to_string()).is_none());
}

#[test]
fn callback_builder_names_its_queue() {
    let cb = CallbackTaskBuilder::new(
        "navigator".to_string(),
        TaskPriority::Normal,
        Some(9),
        "go".to_string(),
        Vec::new(),
    );
    assert_eq!(cb.get_queue_name(), "navigator");
    let built = cb.build();
    assert_eq!(built.command, "go");
    assert_eq!(built.only_run_after, Some(9));
    assert!(built.callback.is_none());
}

#[test]
fn default_priority_is_normal() {
    assert!(matches!(TaskPriority::default(), TaskPriority::Normal));
    assert_eq!(TaskPriority::ASAP.rank_value(), 1);
    assert_eq!(TaskPriority::High.rank_value(), 2);
    assert_eq!(TaskPriority::Normal.rank_value(), 3);
    assert_eq!(TaskPriority::Low.rank_value(), 4);
}

#[test]
fn task_deferred_an_hour_is_not_returned_now() {
    let now = chrono::Utc::now().timestamp_millis();
    let mut q = single_queue(Vec::new());
    q.send_task(task(9, TaskPriority::ASAP, now, Some(now + 3_600_000)));
    // get_task reads the wall clock, which cannot have advanced an hour.
    assert!(q.get_task().is_none());
    // The same record is eligible to a clock an hour ahead.
    assert_eq!(q.dequeue_eligible(now + 3_600_000).unwrap().uuid, 9);
}

#[test]
fn send_callback_submits_to_target_queue() {
    let cb = CallbackTaskBuilder::new(
        "main".to_string(),
        TaskPriority::ASAP,
        None,
        "follow_up".to_string(),
        Vec::new(),
    );
    let mut q = single_queue(Vec::new());
    q.send_callback(cb);
    let got = q.dequeue_eligible(10).expect("the follow-up should be queued");
    assert_eq!(got.command, "follow_up");
    assert!(matches!(got.priority, TaskPriority::ASAP));
}

#[test]
fn empty_queue_yields_nothing() {
    let q = single_queue(Vec::new());
    assert!(q.dequeue_eligible(0).is_none());
    assert!(q.get_task().is_none());
}
