use stock_cli::actors::{MonoActor, MonoMessage};
use stock_cli::types::{Opts, Timestamp};

fn opts(source: &str, from: &str) -> Opts {
    Opts { source: source.to_string(), from: from.to_string() }
}

#[test]
fn save_path_swaps_the_extension() {
    assert_eq!(opts("sp500.may.2020.txt", "").save_path(), "sp500.may.2020.csv");
    assert_eq!(opts("data/list.txt", "").save_path(), "data/list.csv");
}

#[test]
fn save_path_without_extension_is_the_source() {
    assert_eq!(opts("symbols", "").save_path(), "symbols");
    assert_eq!(opts("", "").save_path(), "");
    assert_eq!(opts(".tx", "").save_path(), ".tx");
    assert_eq!(opts("a.tx", "").save_path(), "a.tx");
}

#[test]
fn save_path_replaces_every_occurrence() {
    assert_eq!(opts(".txt.txt", "").save_path(), ".csv.csv");
    assert_eq!(opts("a.txtb.txt.old", "").save_path(), "a.csvb.csv.old");
    assert_eq!(opts("..txtxt", "").save_path(), "..csvxt");
}

#[test]
fn save_path_agrees_with_std_replace() {
    for source in ["", ".txt", "x.txt", ".txt.", "..txt", ".t.tx.txt", "é.txtü", ".tx.txt.tx", "txt", ".TXT"] {
        assert_eq!(opts(source, "").save_path(), source.replace(".txt", ".csv"));
    }
}

#[test]
fn period_start_reads_rfc3339() {
    let start = opts("s.txt", "2020-07-02T19:30:00Z").period_start().unwrap();
    assert_eq!(start.timestamp(), 1_593_718_200);
    assert_eq!(start.timestamp_subsec_nanos(), 0);
    assert_eq!(start.to_rfc3339(), "2020-07-02T19:30:00+00:00");
}

#[test]
fn period_start_is_normalised_to_utc() {
    let start = opts("s.txt", "2020-07-02 21:30:00.250+02:00").period_start().unwrap();
    assert_eq!(start.timestamp(), 1_593_718_200);
    assert_eq!(start.timestamp_subsec_nanos(), 250_000_000);
    assert_eq!(start.to_rfc3339(), "2020-07-02T19:30:00.250+00:00");
}

#[test]
fn period_start_refuses_other_text() {
    assert!(opts("s.txt", "").period_start().is_none());
    assert!(opts("s.txt", "yesterday").period_start().is_none());
    assert!(opts("s.txt", "2020-07-02").period_start().is_none());
    assert!(opts("s.txt", "2020-13-02T19:30:00Z").period_start().is_none());
}

#[test]
fn parse_agrees_with_chrono() {
    for text in ["2012-12-12T12:12:12Z", "2012-12-12 12:12:12+0000", "1969-12-31T23:59:59.5-01:00"] {
        let expected = text.parse::<chrono::DateTime<chrono::Utc>>().unwrap();
        let got = Timestamp::parse(text).unwrap();
        assert_eq!(got.timestamp(), expected.timestamp());
        assert_eq!(got.timestamp_subsec_nanos(), expected.timestamp_subsec_nanos());
        assert_eq!(got.to_rfc3339(), expected.to_rfc3339());
    }
}

#[test]
fn mono_actor_opens_a_batch() {
    let from = Timestamp::new(0, 0).unwrap();
    let to = Timestamp::new(86_400, 0).unwrap();
    let msg = MonoMessage { content: "X,Y,Z".to_string(), from, to };
    let batch = MonoActor {}.handle(&msg);
    assert_eq!(batch.len(), 3);
    assert_eq!(batch.symbol(2), Some("Z".to_string()));
    assert!(batch.report().is_none());
}
