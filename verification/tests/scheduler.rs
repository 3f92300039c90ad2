use stock_cli::actors::DataSaveActor;
use stock_cli::report::Report;
use stock_cli::scheduler::{Action, Event, LoopState, Phase, Scheduler};
use stock_cli::types::Timestamp;

fn scheduler(max: Option<u64>) -> Scheduler {
    Scheduler::new(
        "symbols.txt".to_string(),
        "symbols.csv".to_string(),
        Timestamp::new(1_577_836_800, 0).unwrap(),
        Timestamp::new(1_580_515_200, 0).unwrap(),
        max,
    )
}

fn report() -> Report {
    Report::new(vec!["record A".to_string(), "record B".to_string()])
}

fn run_iteration(loop_: &mut Scheduler, iteration: u64) {
    match loop_.step(Event::Tick) {
        Action::Load(msg) => assert_eq!(msg.path, "symbols.txt"),
        _ => panic!("a tick within the cap reads the symbol list"),
    }
    assert_eq!(loop_.state(), LoopState::Running { iteration, phase: Phase::Loading });
    match loop_.step(Event::Loaded("A,B".to_string())) {
        Action::Process(msg) => {
            assert_eq!(msg.content, "A,B");
            assert_eq!(msg.from.timestamp(), 1_577_836_800);
            assert_eq!(msg.to.timestamp(), 1_580_515_200);
            assert_eq!(msg.from.to_rfc3339(), "2020-01-01T00:00:00+00:00");
        }
        _ => panic!("a loaded list is processed"),
    }
    assert_eq!(loop_.state(), LoopState::Running { iteration, phase: Phase::Processing });
    match loop_.step(Event::Processed(report())) {
        Action::Store(buffer, save) => {
            assert_eq!(
                buffer.content,
                "period start,symbol,price,change %,min,max,30d avg\nrecord A\nrecord B"
            );
            assert_eq!(save.content, "record A\nrecord B");
            assert_eq!(save.path, "symbols.csv");
        }
        _ => panic!("a report is stored"),
    }
    assert_eq!(loop_.state(), LoopState::Running { iteration, phase: Phase::Saving });
    assert!(matches!(loop_.step(Event::Saved), Action::Wait));
    assert_eq!(
        loop_.state(),
        LoopState::Running { iteration: iteration + 1, phase: Phase::Waiting }
    );
}

#[test]
fn loop_starts_in_its_first_iteration() {
    assert_eq!(
        scheduler(None).state(),
        LoopState::Running { iteration: 1, phase: Phase::Waiting }
    );
}

#[test]
fn an_iteration_loads_processes_and_stores() {
    let mut loop_ = scheduler(None);
    run_iteration(&mut loop_, 1);
    run_iteration(&mut loop_, 2);
}

#[test]
fn loop_stops_beyond_its_cap() {
    let mut loop_ = scheduler(Some(2));
    run_iteration(&mut loop_, 1);
    run_iteration(&mut loop_, 2);
    assert!(matches!(loop_.step(Event::Tick), Action::Stop));
    assert_eq!(loop_.state(), LoopState::Stopped);
    assert!(matches!(loop_.step(Event::Tick), Action::Ignore));
    assert_eq!(loop_.state(), LoopState::Stopped);
}

#[test]
fn cap_of_zero_runs_on() {
    let mut loop_ = scheduler(Some(0));
    for i in 1..=5 {
        run_iteration(&mut loop_, i);
    }
}

#[test]
fn failed_load_aborts() {
    let mut loop_ = scheduler(None);
    assert!(matches!(loop_.step(Event::Tick), Action::Load(_)));
    assert!(matches!(loop_.step(Event::LoadFailed), Action::Abort));
    assert_eq!(loop_.state(), LoopState::Aborted);
    assert!(matches!(loop_.step(Event::Tick), Action::Ignore));
    assert_eq!(loop_.state(), LoopState::Aborted);
}

#[test]
fn failed_save_aborts() {
    let mut loop_ = scheduler(None);
    assert!(matches!(loop_.step(Event::Tick), Action::Load(_)));
    assert!(matches!(loop_.step(Event::Loaded("A".to_string())), Action::Process(_)));
    assert!(matches!(loop_.step(Event::Processed(report())), Action::Store(_, _)));
    assert!(matches!(loop_.step(Event::SaveFailed), Action::Abort));
    assert_eq!(loop_.state(), LoopState::Aborted);
}

#[test]
fn stray_events_change_nothing() {
    let mut loop_ = scheduler(None);
    assert!(matches!(loop_.step(Event::Saved), Action::Ignore));
    assert!(matches!(loop_.step(Event::Loaded("A".to_string())), Action::Ignore));
    assert_eq!(loop_.state(), LoopState::Running { iteration: 1, phase: Phase::Waiting });
    assert!(matches!(loop_.step(Event::Tick), Action::Load(_)));
    assert!(matches!(loop_.step(Event::Tick), Action::Ignore));
    assert_eq!(loop_.state(), LoopState::Running { iteration: 1, phase: Phase::Loading });
}

#[test]
fn failed_processing_aborts() {
    let mut loop_ = scheduler(None);
    assert!(matches!(loop_.step(Event::Tick), Action::Load(_)));
    assert!(matches!(loop_.step(Event::Loaded("A".to_string())), Action::Process(_)));
    assert!(matches!(loop_.step(Event::ProcessFailed), Action::Abort));
    assert_eq!(loop_.state(), LoopState::Aborted);
    assert!(matches!(loop_.step(Event::Tick), Action::Ignore));
}

#[test]
fn process_failure_outside_processing_is_ignored() {
    let mut loop_ = scheduler(None);
    assert!(matches!(loop_.step(Event::ProcessFailed), Action::Ignore));
    assert_eq!(loop_.state(), LoopState::Running { iteration: 1, phase: Phase::Waiting });
}

#[test]
fn file_written_by_the_loop_has_one_header() {
    let header = "period start,symbol,price,change %,min,max,30d avg";
    let writer = DataSaveActor {};
    let mut loop_ = scheduler(None);
    let mut file: Option<String> = None;
    for tick in 1..=3 {
        assert!(matches!(loop_.step(Event::Tick), Action::Load(_)));
        assert!(matches!(loop_.step(Event::Loaded("A,B".to_string())), Action::Process(_)));
        let records = vec![format!("A in tick {}", tick), format!("B in tick {}", tick)];
        match loop_.step(Event::Processed(Report::new(records))) {
            Action::Store(buffer, save) => {
                assert!(buffer.content.starts_with(header));
                let body = writer.body(file.is_some(), &save);
                file = Some(file.unwrap_or_default() + &body);
            }
            _ => panic!("a report is stored"),
        }
        assert!(matches!(loop_.step(Event::Saved), Action::Wait));
    }
    let contents = file.unwrap();
    assert_eq!(
        contents,
        format!(
            "{}\nA in tick 1\nB in tick 1\nA in tick 2\nB in tick 2\nA in tick 3\nB in tick 3\n",
            header
        )
    );
    let lines: Vec<&str> = contents.split('\n').collect();
    assert_eq!(lines[0], header);
    assert_eq!(lines.iter().filter(|line| **line == header).count(), 1);
}
