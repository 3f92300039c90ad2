use stock_cli::actors::{BufferActor, BufferMessage, BufferReadMessage, DataSaveActor, DataSaveMessage};

fn push(buffer: &mut BufferActor, report: &str) {
    buffer.push(BufferMessage { content: report.to_string() });
}

fn drain(buffer: &mut BufferActor, n: usize) -> Vec<String> {
    buffer.drain(BufferReadMessage { n })
}

#[test]
fn new_buffer_is_empty() {
    let mut buffer = BufferActor::new(20);
    assert_eq!(buffer.len(), 0);
    assert_eq!(drain(&mut buffer, 5), Vec::<String>::new());
}

#[test]
fn drain_returns_most_recent_first() {
    let mut buffer = BufferActor::new(2);
    push(&mut buffer, "R1");
    push(&mut buffer, "R2");
    push(&mut buffer, "R3");
    assert_eq!(drain(&mut buffer, 2), vec!["R3".to_string(), "R2".to_string()]);
    assert_eq!(buffer.len(), 0);
}

#[test]
fn overflow_evicts_the_oldest() {
    let capacity = 4;
    let mut buffer = BufferActor::new(capacity);
    for i in 0..=capacity {
        push(&mut buffer, &format!("report {}", i));
    }
    assert_eq!(buffer.len(), capacity);
    let got = drain(&mut buffer, capacity);
    assert_eq!(
        got,
        vec![
            "report 4".to_string(),
            "report 3".to_string(),
            "report 2".to_string(),
            "report 1".to_string()
        ]
    );
    assert!(!got.contains(&"report 0".to_string()));
}

#[test]
fn reads_consume_what_they_deliver() {
    let mut buffer = BufferActor::new(10);
    for name in ["a", "b", "c", "d", "e"] {
        push(&mut buffer, name);
    }
    let first = drain(&mut buffer, 2);
    let second = drain(&mut buffer, 2);
    assert_eq!(first, vec!["e".to_string(), "d".to_string()]);
    assert_eq!(second, vec!["c".to_string(), "b".to_string()]);
    for item in &first {
        assert!(!second.contains(item));
    }
    assert_eq!(buffer.len(), 1);
}

#[test]
fn drain_stops_when_the_buffer_runs_out() {
    let mut buffer = BufferActor::new(3);
    push(&mut buffer, "only");
    assert_eq!(drain(&mut buffer, 7), vec!["only".to_string()]);
    assert_eq!(drain(&mut buffer, 7), Vec::<String>::new());
}

#[test]
fn drain_of_nothing_takes_nothing() {
    let mut buffer = BufferActor::new(3);
    push(&mut buffer, "kept");
    assert_eq!(drain(&mut buffer, 0), Vec::<String>::new());
    assert_eq!(buffer.len(), 1);
    assert_eq!(drain(&mut buffer, 1), vec!["kept".to_string()]);
}

#[test]
fn push_below_capacity_keeps_everything() {
    let mut buffer = BufferActor::new(3);
    push(&mut buffer, "x");
    push(&mut buffer, "y");
    assert_eq!(buffer.len(), 2);
    assert_eq!(drain(&mut buffer, 3), vec!["y".to_string(), "x".to_string()]);
}

#[test]
fn buffer_without_room_never_evicts() {
    let mut buffer = BufferActor::new(0);
    push(&mut buffer, "p");
    push(&mut buffer, "q");
    assert_eq!(buffer.len(), 2);
    assert_eq!(drain(&mut buffer, 2), vec!["q".to_string(), "p".to_string()]);
}

#[test]
fn first_append_writes_the_header() {
    let msg = DataSaveMessage { path: "out.csv".to_string(), content: "report".to_string() };
    let body = DataSaveActor {}.body(false, &msg);
    assert_eq!(body, "period start,symbol,price,change %,min,max,30d avg\nreport\n");
}

#[test]
fn later_appends_write_the_report_only() {
    let msg = DataSaveMessage { path: "out.csv".to_string(), content: "report".to_string() };
    let body = DataSaveActor {}.body(true, &msg);
    assert_eq!(body, "report\n");
}

#[test]
fn two_appends_give_one_header() {
    let writer = DataSaveActor {};
    let mut file: Option<String> = None;
    for report in ["first", "second"] {
        let msg = DataSaveMessage { path: "out.csv".to_string(), content: report.to_string() };
        let body = writer.body(file.is_some(), &msg);
        file = Some(match file {
            Some(contents) => contents + &body,
            None => body,
        });
    }
    let contents = file.unwrap();
    assert_eq!(
        contents,
        "period start,symbol,price,change %,min,max,30d avg\nfirst\nsecond\n"
    );
    assert_eq!(contents.matches("period start").count(), 1);
}
