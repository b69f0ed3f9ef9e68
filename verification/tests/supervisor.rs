use botox::task_manager::{BotTask, TaskAction, TaskManager, TaskPhase};

#[test]
fn a_task_that_always_fails_is_restarted_as_often_as_it_may_be() {
    let cap = 5;
    let mut task = BotTask::new(String::from("Twitch Client"), cap);
    assert_eq!(task.phase(), TaskPhase::Idle);
    assert_eq!(task.start(), TaskAction::Run);
    for failure in 1..=cap {
        assert_eq!(task.on_exit(false), TaskAction::Run);
        assert_eq!(task.phase(), TaskPhase::Running);
        assert_eq!(task.restarts(), failure);
    }
    assert_eq!(task.on_exit(false), TaskAction::Shutdown);
    assert_eq!(task.phase(), TaskPhase::Exhausted);
    assert_eq!(task.restarts(), cap);
    assert_eq!(task.on_exit(false), TaskAction::Rest);
    assert_eq!(task.start(), TaskAction::Rest);
    assert_eq!(task.phase(), TaskPhase::Exhausted);
    assert_eq!(task.restarts(), cap);
}

#[test]
fn a_task_without_restarts_is_exhausted_by_its_first_failure() {
    let mut task = BotTask::new(String::from("t"), 0);
    assert_eq!(task.start(), TaskAction::Run);
    assert_eq!(task.on_exit(false), TaskAction::Shutdown);
    assert_eq!(task.phase(), TaskPhase::Exhausted);
    assert_eq!(task.restarts(), 0);
}

#[test]
fn a_task_that_succeeds_is_done() {
    let mut task = BotTask::new(String::from("t"), 3);
    task.start();
    assert_eq!(task.on_exit(false), TaskAction::Run);
    assert_eq!(task.on_exit(true), TaskAction::Rest);
    assert_eq!(task.phase(), TaskPhase::Succeeded);
    assert_eq!(task.restarts(), 1);
    assert_eq!(task.on_exit(false), TaskAction::Rest);
    assert_eq!(task.phase(), TaskPhase::Succeeded);
}

#[test]
fn failure_is_decided_in_two_steps() {
    let mut task = BotTask::new(String::from("t"), 1);
    task.finish(false);
    assert_eq!(task.phase(), TaskPhase::Idle);
    task.start();
    task.finish(false);
    assert_eq!(task.phase(), TaskPhase::Failed);
    assert_eq!(task.restarts(), 0);
    assert_eq!(task.recover(), TaskAction::Run);
    assert_eq!(task.phase(), TaskPhase::Running);
    assert_eq!(task.restarts(), 1);
    assert_eq!(task.recover(), TaskAction::Rest);
    task.finish(false);
    assert_eq!(task.recover(), TaskAction::Shutdown);
    assert_eq!(task.max_restarts(), 1);
}

#[test]
fn a_restart_cap_of_255_does_not_overflow() {
    let mut task = BotTask::new(String::from("t"), 255);
    task.start();
    for _ in 0..255 {
        assert_eq!(task.on_exit(false), TaskAction::Run);
    }
    assert_eq!(task.restarts(), 255);
    assert_eq!(task.on_exit(false), TaskAction::Shutdown);
}

#[test]
fn the_supervisor_asks_for_shutdown_when_a_task_is_exhausted() {
    let mut manager = TaskManager::new();
    manager.add_task(BotTask::new(String::from("Twitch Client"), 5));
    manager.add_task(BotTask::new(String::from("Commands"), 2));
    assert_eq!(manager.len(), 2);
    assert_eq!(manager.run(), vec![0, 1]);
    assert_eq!(manager.run(), Vec::<usize>::new());
    assert!(!manager.shutdown_requested());
    assert_eq!(manager.task_exited(0, true), TaskAction::Rest);
    assert!(!manager.shutdown_requested());
    assert_eq!(manager.task_exited(1, false), TaskAction::Run);
    assert_eq!(manager.task_exited(1, false), TaskAction::Run);
    assert!(!manager.shutdown_requested());
    assert_eq!(manager.task_exited(1, false), TaskAction::Shutdown);
    assert!(manager.shutdown_requested());
    assert_eq!(manager.task(0).phase(), TaskPhase::Succeeded);
    assert_eq!(manager.task(1).phase(), TaskPhase::Exhausted);
    assert_eq!(manager.task(1).restarts(), 2);
    assert_eq!(
        manager.statics(),
        "Twitch Client task, max restarts 5, actual restarts 0\nCommands task, max restarts 2, actual restarts 2\n"
    );
}

#[test]
fn run_launches_the_idle_tasks_only() {
    let mut manager = TaskManager::new();
    let mut started = BotTask::new(String::from("a"), 1);
    started.start();
    manager.add_task(started);
    manager.add_task(BotTask::new(String::from("b"), 1));
    let mut exhausted = BotTask::new(String::from("c"), 0);
    exhausted.start();
    exhausted.on_exit(false);
    manager.add_task(exhausted);
    assert!(manager.shutdown_requested());
    manager.add_task(BotTask::new(String::from("d"), 1));
    assert_eq!(manager.run(), vec![1, 3]);
    assert_eq!(manager.task(0).phase(), TaskPhase::Running);
    assert_eq!(manager.task(2).phase(), TaskPhase::Exhausted);
}

#[test]
fn a_task_describes_itself() {
    let mut task = BotTask::new(String::from("TTS"), 200);
    assert_eq!(task.to_string(), "TTS task, max restarts 200, actual restarts 0");
    task.start();
    for _ in 0..17 {
        task.on_exit(false);
    }
    assert_eq!(task.to_string(), "TTS task, max restarts 200, actual restarts 17");
    assert_eq!(task.name(), "TTS");
}

#[test]
fn an_empty_supervisor_reports_nothing() {
    let manager = TaskManager::new();
    assert_eq!(manager.statics(), "");
    assert!(!manager.shutdown_requested());
}
