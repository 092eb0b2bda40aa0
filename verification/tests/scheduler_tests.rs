use rustruct::dummy::{Arguments, Dummy};
use rustruct::error::RustructError;
use rustruct::scheduler::{Task, TaskScheduler, TaskState};
use rustruct::tree::Tree;

/// Run every waiting task through the dummy unit, publishing Launched and
/// Finished states the way the worker loop would.
fn drain_with_dummy(scheduler: &mut TaskScheduler, unit: &mut Dummy, tree: &mut Tree) {
    let count = scheduler.task_count();
    for id in 1..=count {
        let state = scheduler.task(id).unwrap();
        let task = match state {
            TaskState::Waiting(task) => task,
            _ => continue,
        };
        scheduler.update(TaskState::Launched(task.clone()));
        let arguments = Arguments {
            file_name: String::from("/home/user/test.txt"),
            offset: 0,
            parent: Some(tree.root_id),
        };
        let outcome = match unit.run(arguments, tree) {
            Ok(results) => Ok(format!("{{\"count\":{}}}", results.count)),
            Err(err) => Err(err),
        };
        scheduler.update(TaskState::Finished(task, outcome));
    }
}

#[test]
fn schedule_plugins_join_get_results() {
    let mut tree = Tree::new();
    let mut scheduler = TaskScheduler::new();
    let mut task_ids = Vec::new();

    let mut unit = Dummy::default();
    for _ in 0..24 {
        let arg = String::from("{\"file_name\":\"/home/user/test.txt\",\"offset\":0}");
        if let Ok(id) = scheduler.schedule(String::from("dummy"), arg, false) {
            task_ids.push(id);
        }
    }
    drain_with_dummy(&mut scheduler, &mut unit, &mut tree);
    assert!(scheduler.tasks_are_finished());

    for _result in scheduler.tasks(task_ids) {
        // the same unit and argument were submitted repeatedly, so only the
        // first submission was accepted
    }
}

#[test]
fn duplicate_submission_rejected_once() {
    let mut scheduler = TaskScheduler::new();
    let first = scheduler.schedule(String::from("unit"), String::from("{}"), false);
    let second = scheduler.schedule(String::from("unit"), String::from("{}"), false);
    assert!(matches!(first, Ok(1)));
    assert!(matches!(second, Err(RustructError::PluginAlreadyRunned)));
    assert!(scheduler.task_count() == 1);
    // a different argument is a different task
    let third = scheduler.schedule(String::from("unit"), String::from("{\"x\":1}"), false);
    assert!(matches!(third, Ok(2)));
    // relaunch overrides the deduplication
    let fourth = scheduler.schedule(String::from("unit"), String::from("{}"), true);
    assert!(matches!(fourth, Ok(3)));
}

#[test]
fn observed_stages_never_go_backwards() {
    let mut scheduler = TaskScheduler::new();
    let id = scheduler.schedule(String::from("unit"), String::from("{}"), false).unwrap();
    let task = match scheduler.task(id).unwrap() {
        TaskState::Waiting(task) => task,
        _ => panic!("freshly accepted task must be waiting"),
    };
    assert!(matches!(scheduler.task(id).unwrap(), TaskState::Waiting(_)));
    scheduler.update(TaskState::Launched(task.clone()));
    assert!(matches!(scheduler.task(id).unwrap(), TaskState::Launched(_)));
    scheduler.update(TaskState::Finished(task, Ok(String::from("{}"))));
    assert!(matches!(scheduler.task(id).unwrap(), TaskState::Finished(_, _)));
}

#[test]
fn join_condition_tracks_every_accepted_id() {
    let mut scheduler = TaskScheduler::new();
    assert!(scheduler.tasks_are_finished());
    let a = scheduler.schedule(String::from("u"), String::from("1"), false).unwrap();
    let b = scheduler.schedule(String::from("u"), String::from("2"), false).unwrap();
    assert!(!scheduler.tasks_are_finished());
    let task_a = match scheduler.task(a).unwrap() {
        TaskState::Waiting(task) => task,
        _ => panic!("expected waiting"),
    };
    scheduler.update(TaskState::Finished(task_a, Ok(String::new())));
    // one task of the two is finished, so a join may not return yet
    assert!(!scheduler.tasks_are_finished());
    let task_b = match scheduler.task(b).unwrap() {
        TaskState::Waiting(task) => task,
        _ => panic!("expected waiting"),
    };
    scheduler.update(TaskState::Finished(task_b, Ok(String::new())));
    assert!(scheduler.tasks_are_finished());
    assert!(scheduler.tasks_finished().len() == 2);
    assert!(scheduler.to_vec().len() == 2);
}

#[test]
fn same_unit_twenty_four_times_without_relaunch() {
    let mut tree = Tree::new();
    let mut scheduler = TaskScheduler::new();
    let mut unit = Dummy::default();

    let mut accepted = 0;
    let mut rejected = 0;
    for _ in 0..24 {
        match scheduler.schedule(
            String::from("dummy"),
            String::from("{\"offset\":0}"),
            false,
        ) {
            Ok(_) => accepted += 1,
            Err(RustructError::PluginAlreadyRunned) => rejected += 1,
            Err(_) => panic!("unexpected error"),
        }
    }
    assert!(accepted == 1);
    assert!(rejected == 23);

    drain_with_dummy(&mut scheduler, &mut unit, &mut tree);
    assert!(scheduler.tasks_are_finished());
    let finished = scheduler.tasks_finished();
    assert!(finished.len() == 1);
    assert!(finished[0].1.as_ref().unwrap() == "{\"count\":1}");
}

#[test]
fn same_unit_twenty_four_times_with_relaunch() {
    let mut tree = Tree::new();
    let mut scheduler = TaskScheduler::new();
    let mut unit = Dummy::default();

    for _ in 0..24 {
        scheduler
            .schedule(String::from("dummy"), String::from("{\"offset\":0}"), true)
            .unwrap();
    }
    assert!(scheduler.task_count() == 24);

    drain_with_dummy(&mut scheduler, &mut unit, &mut tree);
    assert!(scheduler.tasks_are_finished());

    // the unit counted every run, but only the first created its node; the
    // others finished with the duplicate-name error
    let finished = scheduler.tasks_finished();
    assert!(finished.len() == 24);
    let mut successes = 0;
    let mut duplicate_errors = 0;
    for (_, result) in finished {
        match result {
            Ok(text) => {
                assert!(text == "{\"count\":1}");
                successes += 1;
            },
            Err(RustructError::DuplicateNodeName) => duplicate_errors += 1,
            Err(_) => panic!("unexpected error"),
        }
    }
    assert!(successes == 1);
    assert!(duplicate_errors == 23);
}

#[test]
fn error_messages_render_as_one_line() {
    assert!(
        RustructError::PluginNotFound { name: String::from("x") }.message()
            == "Plugin x not found"
    );
    assert!(
        RustructError::PluginAlreadyRunned.message()
            == "Same plugin with same argument already runned"
    );
    assert!(RustructError::TaskNotFinished(7).message() == "Task 7 not finished yet");
    assert!(RustructError::TaskNotFound(12).message() == "Task 12 not found");
    assert!(RustructError::ResultNotFound(3).message() == "Result for task 3 not found");
    assert!(RustructError::ArgumentNotFound("parent").message() == "Argument parent not found");
    assert!(RustructError::ValueNotFound("v").message() == "Value v not found");
    assert!(RustructError::ValueTypeMismatch.message() == "Value Type mismatch");
    assert!(RustructError::OpenFile(String::from("f")).message() == "Error opening file f");
    assert!(RustructError::Unknown(String::from("boom")).message() == "Error boom");
}

#[test]
fn task_record_round_trip() {
    let task = Task {
        id: 42,
        plugin_name: String::from("dummy"),
        argument: String::from("{\"file_name\":\"/tmp/a b\",\"offset\":0}"),
    };
    let record = rustruct::codec::encode_task(&task);
    let back = rustruct::codec::decode_task(record.as_str()).unwrap();
    assert!(back.id == task.id);
    assert!(back.plugin_name == task.plugin_name);
    assert!(back.argument == task.argument);
}

#[test]
fn task_record_escapes_and_control_characters() {
    let task = Task {
        id: 1,
        plugin_name: String::from("na\"me\\with\nescapes\ttab\rcr\u{1}ctl"),
        argument: String::from(""),
    };
    let record = rustruct::codec::encode_task(&task);
    let back = rustruct::codec::decode_task(record.as_str()).unwrap();
    assert!(back.plugin_name == task.plugin_name);
    assert!(back.argument == task.argument);
    assert!(rustruct::codec::decode_task("{\"id\":1}").is_none());
    assert!(rustruct::codec::decode_task("").is_none());
    assert!(
        rustruct::codec::decode_task(
            "{\"id\":99999999999,\"plugin_name\":\"a\",\"argument\":\"b\"}"
        )
        .is_none()
    );
}

#[test]
fn task_record_is_plain_json() {
    let task = Task {
        id: 7,
        plugin_name: String::from("du\"mmy"),
        argument: String::from("{\"offset\":3}"),
    };
    let record = rustruct::codec::encode_task(&task);
    let parsed: serde_json::Value = serde_json::from_str(record.as_str()).unwrap();
    assert!(parsed.get("id").unwrap().as_u64() == Some(7));
    assert!(parsed.get("plugin_name").unwrap().as_str() == Some("du\"mmy"));
    assert!(parsed.get("argument").unwrap().as_str() == Some("{\"offset\":3}"));
}
