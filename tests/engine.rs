use eventsum::engine::{summarize, App, LineStatus};
use eventsum::event::{Level, LineError};
use eventsum::result::SummaryResult;

fn lines(ls: &[&str]) -> Vec<String> {
    ls.iter().map(|l| l.to_string()).collect()
}

fn fingerprint(r: &SummaryResult) -> String {
    let top: Vec<String> = r.top_users.iter().map(|u| format!("{}:{}", u.user, u.count)).collect();
    let outlier = r.outlier.as_ref().map(|e| format!("{}/{:?}/{}/{}/{}", e.ts, e.level, e.user, e.action, e.duration_ms));
    format!(
        "{} {} {} {:?} {:?} {} {:?}",
        r.total_lines, r.bad_lines, r.events, r.by_level, top, r.p95_duration_ms, outlier
    )
}

#[test]
fn end_to_end_with_blank_line() {
    let input = lines(&[
        r#"{"ts":"t1","level":"INFO","user":"alice","action":"run","duration_ms":100}"#,
        "",
        r#"{"ts":"t2","level":"WARN","user":"bob","action":"run","duration_ms":200}"#,
    ]);
    let r = summarize(&input);
    assert_eq!(r.total_lines, 3);
    assert_eq!(r.bad_lines, 1);
    assert_eq!(r.events, 2);
    assert_eq!(r.by_level.info, 1);
    assert_eq!(r.by_level.warn, 1);
    assert_eq!(r.by_level.error, 0);
    assert_eq!(r.top_users.len(), 2);
    assert_eq!(r.top_users[0].user, "alice");
    assert_eq!(r.top_users[0].count, 1);
    assert_eq!(r.top_users[1].user, "bob");
    assert_eq!(r.top_users[1].count, 1);
    assert_eq!(r.p95_duration_ms, 200);
    let outlier = r.outlier.unwrap();
    assert_eq!(outlier.user, "bob");
    assert_eq!(outlier.duration_ms, 200);
}

#[test]
fn every_line_is_bad_or_an_event() {
    let input = lines(&[
        r#"{"ts":"t1","level":"INFO","user":"alice","action":"run","duration_ms":100}"#,
        "not-json",
        "   ",
        r#"{"ts":"","level":"INFO","user":"alice","action":"run","duration_ms":100}"#,
        r#"{"ts":"t3","level":"ERROR","user":"carol","action":"run","duration_ms":5}"#,
        r#"{"ts":"t4","level":"debug","user":"carol","action":"run","duration_ms":5}"#,
    ]);
    let r = summarize(&input);
    assert_eq!(r.total_lines, 6);
    assert_eq!(r.events, 2);
    assert_eq!(r.bad_lines, 4);
    assert_eq!(r.total_lines, r.bad_lines + r.events);
}

#[test]
fn running_twice_gives_the_same_summary() {
    let input = lines(&[
        r#"{"ts":"t1","level":"INFO","user":"alice","action":"run","duration_ms":100}"#,
        r#"{"ts":"t2","level":"WARN","user":"bob","action":"run","duration_ms":300}"#,
        "oops",
        r#"{"ts":"t3","level":"ERROR","user":"alice","action":"stop","duration_ms":300}"#,
    ]);
    let a = summarize(&input);
    let b = summarize(&input);
    assert_eq!(fingerprint(&a), fingerprint(&b));
}

#[test]
fn empty_input_gives_empty_summary() {
    let r = summarize(&Vec::new());
    assert_eq!(r.total_lines, 0);
    assert_eq!(r.bad_lines, 0);
    assert_eq!(r.events, 0);
    assert_eq!(r.top_users.len(), 0);
    assert_eq!(r.p95_duration_ms, 0);
    assert!(r.outlier.is_none());
}

#[test]
fn process_line_reports_each_classification() {
    let mut app = App::new();
    assert_eq!(app.process_line(" \t"), LineStatus::Blank);
    assert_eq!(app.process_line("{"), LineStatus::Rejected(LineError::Parse));
    assert_eq!(
        app.process_line(r#"{"ts":"t","level":"INFO","user":"","action":"a","duration_ms":1}"#),
        LineStatus::Rejected(LineError::Invalid { ts: false, user: true, action: false })
    );
    assert_eq!(
        app.process_line(r#"{"ts":"t","level":"ERROR","user":"zoe","action":"a","duration_ms":42}"#),
        LineStatus::Accepted
    );
    app.finalize();
    let r = app.get_result();
    assert_eq!(r.total_lines, 4);
    assert_eq!(r.bad_lines, 3);
    assert_eq!(r.events, 1);
    assert_eq!(r.by_level.error, 1);
    assert_eq!(r.top_users[0].user, "zoe");
    assert_eq!(r.p95_duration_ms, 42);
    assert_eq!(r.outlier.as_ref().unwrap().level, Level::Error);
}

#[test]
fn users_are_counted_across_lines() {
    let mut input = Vec::new();
    for (user, n) in [("bob", 2), ("amy", 4), ("cy", 1), ("dee", 3)] {
        for i in 0..n {
            input.push(format!(
                r#"{{"ts":"t{}","level":"INFO","user":"{}","action":"x","duration_ms":{}}}"#,
                i, user, i
            ));
        }
    }
    let r = summarize(&input);
    let top: Vec<(&str, usize)> = r.top_users.iter().map(|u| (u.user.as_str(), u.count)).collect();
    assert_eq!(top, vec![("amy", 4), ("dee", 3), ("bob", 2)]);
    assert_eq!(r.events, 10);
    assert_eq!(r.by_level.info, 10);
}
