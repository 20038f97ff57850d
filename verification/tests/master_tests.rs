use mini_redis::master::{
    commit_next_action, CommitAction, ExecError, MasterServiceS, Replication, ReplicationAction,
    SetOutcome,
};
use mini_redis::reply::Reply;
use mini_redis::slave::SlaveServiceS;

fn s(x: &str) -> String {
    x.to_string()
}

fn applied(outcome: SetOutcome) -> (String, String, Option<String>) {
    match outcome {
        SetOutcome::Applied(rep) => (rep.key, rep.value, rep.aof_line),
        SetOutcome::Queued => panic!("write was queued"),
    }
}

#[test]
fn set_then_get_on_master() {
    let mut m = MasterServiceS::new(false);
    assert_eq!(m.get_item("k1"), None);
    let (k, v, line) = applied(m.set_item(s("k1"), s("111"), None));
    assert_eq!(k, "k1");
    assert_eq!(v, "111");
    assert_eq!(line, Some(s("k1 111\r\n")));
    assert_eq!(m.get_item("k1"), Some(s("111")));
    let _ = m.set_item(s("k1"), s("222"), None);
    assert_eq!(m.get_item("k1"), Some(s("222")));
}

#[test]
fn rebuilding_master_does_not_log() {
    let mut m = MasterServiceS::new(true);
    assert!(m.rebuild());
    let (_, _, line) = applied(m.set_item(s("a"), s("1"), None));
    assert_eq!(line, None);
    m.set_rebuild(false);
    let (_, _, line) = applied(m.set_item(s("b"), s("2"), None));
    assert_eq!(line, Some(s("b 2\r\n")));
}

#[test]
fn slave_follows_forwarded_writes() {
    let mut m = MasterServiceS::new(false);
    let mut sl = SlaveServiceS::new();
    let (k, v, _) = applied(m.set_item(s("k1"), s("111"), None));
    assert_eq!(sl.get_item("k1"), None);
    assert_eq!(sl.sync_set_item(k, v), Reply::Synced);
    assert_eq!(sl.get_item("k1"), m.get_item("k1"));
    assert_eq!(sl.get_item("k1"), Some(s("111")));
}

#[test]
fn transaction_writes_are_hidden_until_exec() {
    let mut m = MasterServiceS::new(false);
    assert_eq!(m.server_multi(1), Reply::EnteredTransaction);
    assert!(matches!(m.set_item(s("k1"), s("v1"), Some(1)), SetOutcome::Queued));
    assert!(matches!(m.set_item(s("k2"), s("v2"), Some(1)), SetOutcome::Queued));
    assert_eq!(m.get_item("k1"), None);
    assert_eq!(m.get_item("k2"), None);
    let mut writes = match m.exec(1) {
        Ok(w) => w,
        Err(_) => panic!("exec failed"),
    };
    writes.sort();
    assert_eq!(writes, vec![(s("k1"), s("v1")), (s("k2"), s("v2"))]);
    for (k, v) in writes {
        let _ = m.set_item(k, v, None);
    }
    assert_eq!(m.get_item("k1"), Some(s("v1")));
    assert_eq!(m.get_item("k2"), Some(s("v2")));
    // The queue is gone: a second exec hands out nothing.
    assert_eq!(m.exec(1).ok(), Some(vec![]));
}

#[test]
fn later_write_in_transaction_wins() {
    let mut m = MasterServiceS::new(false);
    m.server_multi(3);
    let _ = m.set_item(s("k"), s("a"), Some(3));
    let _ = m.set_item(s("k"), s("b"), Some(3));
    assert_eq!(m.exec(3).ok(), Some(vec![(s("k"), s("b"))]));
}

#[test]
fn write_after_watch_aborts_exec() {
    let mut m = MasterServiceS::new(false);
    let _ = m.set_item(s("k"), s("1"), None);
    m.server_multi(7);
    assert_eq!(m.watch(s("k"), 7), Reply::WatchSet);
    let _ = m.set_item(s("q"), s("x"), Some(7));
    let _ = m.set_item(s("k"), s("2"), None);
    match m.exec(7) {
        Err(ExecError::KeyChanged(k)) => {
            assert_eq!(k, "k");
            assert_eq!(ExecError::KeyChanged(k).message(), "k was been changed");
        }
        Ok(_) => panic!("exec should fail"),
    }
    // Nothing was applied and the queue is still there.
    assert_eq!(m.get_item("q"), None);
    assert_eq!(m.get_item("k"), Some(s("2")));
}

#[test]
fn watch_of_absent_key_breaks_when_it_appears() {
    let mut m = MasterServiceS::new(false);
    m.server_multi(2);
    m.watch(s("n"), 2);
    let _ = m.set_item(s("n"), s("now"), None);
    assert!(matches!(m.exec(2), Err(ExecError::KeyChanged(_))));
}

#[test]
fn rewrite_with_same_value_keeps_watch() {
    let mut m = MasterServiceS::new(false);
    let _ = m.set_item(s("k"), s("1"), None);
    m.server_multi(4);
    m.watch(s("k"), 4);
    let _ = m.set_item(s("k"), s("1"), None);
    let _ = m.set_item(s("z"), s("9"), Some(4));
    assert_eq!(m.exec(4).ok(), Some(vec![(s("z"), s("9"))]));
}

#[test]
fn watch_without_multi_opens_transaction() {
    let mut m = MasterServiceS::new(false);
    assert!(!m.has_transaction(5));
    m.watch(s("k"), 5);
    assert!(m.has_transaction(5));
    assert_eq!(m.exec(5).ok(), Some(vec![]));
}

#[test]
fn server_multi_resets_transaction() {
    let mut m = MasterServiceS::new(false);
    m.server_multi(9);
    let _ = m.set_item(s("a"), s("1"), Some(9));
    m.server_multi(9);
    assert_eq!(m.exec(9).ok(), Some(vec![]));
}

#[test]
fn reply_texts() {
    assert_eq!(Reply::Accepted.text(), "Ok");
    assert_eq!(Reply::Synced.text(), "OK");
    assert_eq!(Reply::EnteredTransaction.text(), "Get into transaction!");
    assert_eq!(Reply::WatchSet.text(), "Watch has been set");
    assert_eq!(Reply::ExecSucceeded.text(), "EXEC successfully");
}

#[test]
fn watch_broken_by_later_writes_fails_at_exec() {
    let mut m = MasterServiceS::new(false);
    let _ = m.set_item(s("k"), s("1"), None);
    m.server_multi(8);
    m.watch(s("k"), 8);
    m.watch(s("other"), 8);
    let _ = m.set_item(s("x"), s("0"), None);
    let _ = m.set_item(s("k"), s("2"), None);
    let _ = m.set_item(s("y"), s("0"), Some(8));
    let _ = m.set_item(s("k"), s("3"), None);
    assert!(matches!(m.exec(8), Err(ExecError::KeyChanged(k)) if k == "k"));
}

#[test]
fn watch_restored_before_exec_holds() {
    let mut m = MasterServiceS::new(false);
    let _ = m.set_item(s("k"), s("1"), None);
    m.server_multi(6);
    m.watch(s("k"), 6);
    let _ = m.set_item(s("k"), s("2"), None);
    let _ = m.set_item(s("k"), s("1"), None);
    let _ = m.set_item(s("z"), s("5"), Some(6));
    assert_eq!(m.exec(6).ok(), Some(vec![(s("z"), s("5"))]));
}

fn rep(logs: bool) -> Replication {
    Replication { key: s("k"), value: s("v"), aof_line: if logs { Some(s("k v\r\n")) } else { None } }
}

#[test]
fn replication_asks_slaves_in_turn_then_logs() {
    let r = rep(true);
    assert_eq!(r.next_action(2, 0, false), ReplicationAction::Forward(0));
    assert_eq!(r.next_action(2, 1, false), ReplicationAction::Forward(1));
    assert_eq!(r.next_action(2, 2, false), ReplicationAction::AppendLog);
    assert_eq!(r.next_action(0, 0, false), ReplicationAction::AppendLog);
    let quiet = rep(false);
    assert_eq!(quiet.next_action(1, 1, false), ReplicationAction::Finish);
    assert_eq!(quiet.next_action(0, 0, false), ReplicationAction::Finish);
}

#[test]
fn replication_stops_at_first_refusal() {
    let r = rep(true);
    assert_eq!(r.next_action(3, 1, true), ReplicationAction::Abort);
    assert_eq!(r.next_action(3, 0, true), ReplicationAction::Abort);
}

#[test]
fn commit_applies_writes_in_turn_and_stops_at_failure() {
    let writes = vec![(s("a"), s("1")), (s("b"), s("2"))];
    assert_eq!(commit_next_action(&writes, 0, false), CommitAction::Apply(0));
    assert_eq!(commit_next_action(&writes, 1, false), CommitAction::Apply(1));
    assert_eq!(commit_next_action(&writes, 2, false), CommitAction::Finish);
    assert_eq!(commit_next_action(&writes, 1, true), CommitAction::Abort);
    assert_eq!(commit_next_action(&vec![], 0, false), CommitAction::Finish);
}
