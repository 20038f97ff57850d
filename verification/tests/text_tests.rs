use mini_redis::aof::{encode_record, replay, EmptyLine};
use mini_redis::client::{parse_command, ClientSession, Command, MultiStep, Usage};
use mini_redis::text::{split_lines, split_whitespace, str_contains};
use std::io::BufRead;

fn s(x: &str) -> String {
    x.to_string()
}

#[test]
fn split_whitespace_matches_std() {
    for line in ["", "   ", "get k1", "  set  a\tb \n", "x\u{3000}y\u{85}z", "one"] {
        let expect: Vec<String> = line.split_whitespace().map(|w| w.to_string()).collect();
        assert_eq!(split_whitespace(line), expect);
    }
}

#[test]
fn split_lines_matches_buffered_reader() {
    for text in ["", "a", "a\n", "a\r\nb", "\n\n", "a\r", "x y\r\nz w\r\n\r\nrest"] {
        let expect: Vec<String> = std::io::Cursor::new(text).lines().map(|l| l.unwrap()).collect();
        assert_eq!(split_lines(text), expect);
    }
}

#[test]
fn substring_search() {
    assert!(str_contains("abc127.0.0.1:8080", "127.0.0.1:8080"));
    assert!(str_contains("abc", ""));
    assert!(!str_contains("ab", "abc"));
    assert!(!str_contains("127.0.0.1:808", "127.0.0.1:8080"));
}

#[test]
fn record_lines_replay() {
    let mut log = String::new();
    log.push_str(&encode_record("k1", "111"));
    log.push_str(&encode_record("k2", "v2"));
    assert_eq!(log, "k1 111\r\nk2 v2\r\n");
    let r = replay(&log, EmptyLine::Stop);
    assert_eq!(r.records, vec![(s("k1"), s("111")), (s("k2"), s("v2"))]);
    assert!(!r.malformed);
}

#[test]
fn replay_stops_or_skips_at_empty_line() {
    let log = "a 1\n\nb 2 extra\n";
    let stop = replay(log, EmptyLine::Stop);
    assert_eq!(stop.records, vec![(s("a"), s("1"))]);
    assert!(!stop.malformed);
    let skip = replay(log, EmptyLine::Skip);
    assert_eq!(skip.records, vec![(s("a"), s("1")), (s("b"), s("2"))]);
    assert!(!skip.malformed);
}

#[test]
fn replay_reports_malformed_line() {
    let r = replay("a 1\nlonely\nb 2\n", EmptyLine::Stop);
    assert_eq!(r.records, vec![(s("a"), s("1"))]);
    assert!(r.malformed);
    let r = replay("   \n", EmptyLine::Skip);
    assert!(r.records.is_empty());
    assert!(r.malformed);
}

fn cmd(line: &str) -> String {
    match parse_command(line) {
        Command::Empty => s("empty"),
        Command::Get(k) => format!("get {}", k),
        Command::Put(k, v) => format!("set {} {}", k, v),
        Command::Delete(ks) => format!("delete {}", ks.join(",")),
        Command::Multi => s("multi"),
        Command::Exec => s("exec"),
        Command::Watch(k) => format!("watch {}", k),
        Command::Exit => s("exit"),
        Command::Usage(u) => u.text(),
        Command::Unknown(c) => format!("unknown {}", c),
    }
}

#[test]
fn commands_are_read_from_lines() {
    assert_eq!(cmd("  \n"), "empty");
    assert_eq!(cmd("get k1\n"), "get k1");
    assert_eq!(cmd("get"), "usage: get <key>");
    assert_eq!(cmd("get a b"), "usage: get <key>");
    assert_eq!(cmd("set k v"), "set k v");
    assert_eq!(cmd("set k"), "usage: set <key> <value>");
    assert_eq!(cmd("delete a b c"), "delete a,b,c");
    assert_eq!(cmd("delete"), "delete ");
    assert_eq!(cmd("multi extra"), "multi");
    assert_eq!(cmd("exec"), "exec");
    assert_eq!(cmd("watch k"), "watch k");
    assert_eq!(cmd("watch"), "usage: watch <key>");
    assert_eq!(cmd("exit"), "exit");
    assert_eq!(cmd("GET k"), "unknown GET");
    assert_eq!(Usage::Put.text(), "usage: set <key> <value>");
}

#[test]
fn client_session_keeps_its_transaction() {
    let mut c = ClientSession::new();
    assert_eq!(c.transaction_id(), None);
    assert_eq!(c.exec(), None);
    assert_eq!(c.multi(), MultiStep::Ask);
    assert_eq!(c.multi_answered(None), 0);
    assert_eq!(c.transaction_id(), None);
    assert_eq!(c.multi_answered(Some(4)), 4);
    assert_eq!(c.multi(), MultiStep::Open(4));
    assert_eq!(c.transaction_id(), Some(4));
    assert_eq!(c.exec(), Some(4));
    c.exec_sent();
    assert_eq!(c.transaction_id(), None);
    assert_eq!(c.multi(), MultiStep::Ask);
}
