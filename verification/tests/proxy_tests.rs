use mini_redis::context::{CallRejected, ContextLayer};
use mini_redis::proxy::{ProxyError, ProxyServiceS, ReadTarget};
use mini_redis::master::{MasterServiceS, SetOutcome};
use mini_redis::slave::SlaveServiceS;
use mini_redis::reply::Reply;
use pilota::FastStr;
use std::collections::hash_map::DefaultHasher;
use std::hash::{Hash, Hasher};

fn std_hash(key: &str) -> u64 {
    let mut h = DefaultHasher::new();
    FastStr::from(key.to_string()).hash(&mut h);
    h.finish()
}

#[test]
fn routing_hash_matches_hashing_the_key() {
    let p = ProxyServiceS::new(vec![0; 1000]);
    for k in ["", "k1", "key42", "héllo", "a b"] {
        let mut h = DefaultHasher::new();
        k.hash(&mut h);
        assert_eq!(h.finish(), std_hash(k));
        assert_eq!(p.set_item(k), (std_hash(k) as usize) % 1000);
        assert_eq!(p.set_item(k), p.shard_for_hash(std_hash(k)));
        assert_eq!(p.get_item(k), p.read_target_for_hash(std_hash(k)));
    }
}

#[test]
fn hash_based_routing() {
    let p = ProxyServiceS::new(vec![2, 0, 3]);
    assert_eq!(p.shard_for_hash(7), 1);
    assert_eq!(p.shard_for_hash(9), 0);
    // 9 % 3 = 0, and shard 0 has a master and two slaves: 9 % 3 = 0.
    assert_eq!(p.read_target_for_hash(9), ReadTarget::Master(0));
    // 10 % 3 = 1 (no slaves there): the master.
    assert_eq!(p.read_target_for_hash(10), ReadTarget::Master(1));
    // 14 % 3 = 2, and shard 2 has a master and three slaves: 14 % 4 = 2.
    assert_eq!(p.read_target_for_hash(14), ReadTarget::Slave(2, 1));
}

#[test]
fn read_through_proxy_returns_write() {
    let shards = vec![1usize, 2, 0];
    let p = ProxyServiceS::new(shards.clone());
    let mut masters: Vec<MasterServiceS> = (0..3).map(|_| MasterServiceS::new(false)).collect();
    let mut slaves: Vec<Vec<SlaveServiceS>> =
        shards.iter().map(|&n| (0..n).map(|_| SlaveServiceS::new()).collect()).collect();
    for i in 0..40 {
        let key = format!("key{}", i);
        let value = format!("value{}", i);
        let m = p.set_item(&key);
        match masters[m].set_item(key.clone(), value.clone(), None) {
            SetOutcome::Applied(rep) => {
                for s in slaves[m].iter_mut() {
                    s.sync_set_item(rep.key.clone(), rep.value.clone());
                }
            }
            SetOutcome::Queued => panic!("write was queued"),
        }
    }
    for i in 0..40 {
        let key = format!("key{}", i);
        let got = match p.get_item(&key) {
            ReadTarget::Master(m) => masters[m].get_item(&key),
            ReadTarget::Slave(m, s) => slaves[m][s].get_item(&key),
        };
        assert_eq!(got, Some(format!("value{}", i)));
    }
}

#[test]
fn writes_go_to_hash_shard() {
    let p = ProxyServiceS::new(vec![1, 0, 2]);
    assert_eq!(p.master_count(), 3);
    for i in 0..50 {
        let k = format!("key{}", i);
        let expect = (std_hash(&k) as usize) % 3;
        assert_eq!(p.set_item(&k), expect);
        assert_eq!(p.watch(&k), expect);
    }
}

#[test]
fn reads_follow_writes() {
    let p = ProxyServiceS::new(vec![2, 0, 3]);
    for i in 0..100 {
        let k = format!("key{}", i);
        let h = std_hash(&k) as usize;
        let m = p.set_item(&k);
        let expect = match h % ([2usize, 0, 3][m] + 1) {
            0 => ReadTarget::Master(m),
            j => ReadTarget::Slave(m, j - 1),
        };
        assert_eq!(p.get_item(&k), expect);
        match p.get_item(&k) {
            ReadTarget::Master(x) => assert_eq!(x, m),
            ReadTarget::Slave(x, s) => {
                assert_eq!(x, m);
                assert!(s < [2usize, 0, 3][m]);
            }
        }
    }
}

#[test]
fn shard_without_slaves_reads_from_master() {
    let p = ProxyServiceS::new(vec![0]);
    assert_eq!(p.get_item("anything"), ReadTarget::Master(0));
    assert_eq!(p.set_item("anything"), 0);
}

#[test]
fn transaction_numbers_count_up() {
    let mut p = ProxyServiceS::new(vec![0, 0]);
    assert_eq!(p.transaction_id(), 0);
    assert_eq!(p.multi(), 1);
    assert_eq!(p.multi(), 2);
    assert_eq!(p.transaction_id(), 2);
}

#[test]
fn exec_fails_if_any_master_fails() {
    let p = ProxyServiceS::new(vec![0, 0]);
    assert_eq!(p.exec(&vec![true, true]), Ok(Reply::ExecSucceeded));
    assert_eq!(p.exec(&vec![]), Ok(Reply::ExecSucceeded));
    assert_eq!(p.exec(&vec![true, false]), Err(ProxyError::ExecFailed));
    assert_eq!(ProxyError::ExecFailed.message(), "EXEC failed");
}

#[test]
fn context_checks_only_writes() {
    let svc = ContextLayer.layer(17u32);
    assert_eq!(svc.0, 17);
    let read = "GetItemRequest { key: \"k1\" }";
    let write = "SyncSetItemRequest { kv: Kv { key: \"k2\", value: \"111\" } }";
    // A read passes whatever it is addressed to.
    assert_eq!(svc.call("tst_client_sla", read), Ok(&17));
    assert_eq!(svc.call("", read), Ok(&17));
    // A write passes only when addressed to the master.
    assert_eq!(svc.call("tst_client_sla", write), Err(CallRejected::NotMasterCall));
    assert_eq!(svc.call("127.0.0.1:8081", write), Err(CallRejected::NotMasterCall));
    assert_eq!(svc.call("127.0.0.1:8080", write), Ok(&17));
    assert_eq!(svc.call("MasterService@127.0.0.1:8080/x", write), Ok(&17));
    // The request is lower-cased before the test for "set".
    assert_eq!(svc.call("x", "SET k v"), Err(CallRejected::NotMasterCall));
    assert_eq!(svc.call("x", "reSeT"), Err(CallRejected::NotMasterCall));
    assert_eq!(svc.call("x", "SE T"), Ok(&17));
    // Deciding on text that is already lower-cased.
    assert_eq!(svc.decide("x", "setitem"), Err(CallRejected::NotMasterCall));
    assert_eq!(svc.decide("x", "SETITEM"), Ok(&17));
    assert_eq!(CallRejected::NotMasterCall.message(), "Not master call");
}

#[test]
fn transaction_numbers_never_repeat() {
    let mut p = ProxyServiceS::new(vec![1]);
    let mut seen = Vec::new();
    for i in 0..20 {
        if i % 3 == 0 {
            let _ = p.get_item("k");
            let _ = p.set_item("k");
            let _ = p.exec(&vec![true]);
        }
        seen.push(p.multi());
    }
    for w in seen.windows(2) {
        assert!(w[0] < w[1]);
    }
    assert_eq!(seen, (1..=20).collect::<Vec<i64>>());
}
