//! The master of a shard: it owns the shard's keys, takes writes at once or
//! into an optimistic transaction, and tells its caller what to forward to
//! the slaves and to the append-only file.

use crate::aof::{encode_record, record_line};
use crate::keyed_map::KeyedMap;
use crate::reply::Reply;
use crate::text::push_str;
use std::collections::HashMap;
use vstd::hash_map::StringHashMap;
use vstd::prelude::*;

verus! {

broadcast use vstd::std_specs::hash::group_hash_axioms;

/// The abstract state of a master.
pub struct MasterView {
    /// The committed contents of the shard.
    pub store: Map<Seq<char>, String>,
    /// For each open transaction, the writes queued in it.
    pub commands: Map<i64, Map<Seq<char>, String>>,
    /// For each open transaction, each watched key with the value it had
    /// when it was watched (`None`: it had none).
    pub watched: Map<i64, Map<Seq<char>, Option<String>>>,
    /// Whether the master is being rebuilt from its append-only file, in
    /// which case writes are not recorded there again.
    pub rebuild: bool,
}

/// The writes queued in transaction `id`.
pub open spec fn queued(v: MasterView, id: i64) -> Map<Seq<char>, String> {
    if v.commands.contains_key(id) {
        v.commands[id]
    } else {
        Map::empty()
    }
}

/// The keys watched in transaction `id`.
pub open spec fn watches(v: MasterView, id: i64) -> Map<Seq<char>, Option<String>> {
    if v.watched.contains_key(id) {
        v.watched[id]
    } else {
        Map::empty()
    }
}

/// Whether key `k`, seen holding `seen` when it was watched, holds
/// something else in `store` now.
pub open spec fn watch_broken(store: Map<Seq<char>, String>, k: Seq<char>, seen: Option<String>) -> bool {
    match seen {
        Some(v) => !store.contains_key(k) || store[k]@ != v@,
        None => store.contains_key(k),
    }
}

/// Whether some key watched in `w` was changed in `store` since.
pub open spec fn some_watch_broken(
    store: Map<Seq<char>, String>,
    w: Map<Seq<char>, Option<String>>,
) -> bool {
    exists|k: Seq<char>| #[trigger] w.contains_key(k) && watch_broken(store, k, w[k])
}

/// Whether `writes` lists each entry of `m` exactly once.
pub open spec fn lists_exactly(writes: Seq<(String, String)>, m: Map<Seq<char>, String>) -> bool {
    &&& forall|i: int, j: int|
        0 <= i < j < writes.len() ==> (#[trigger] writes[i]).0@ != (#[trigger] writes[j]).0@
    &&& forall|i: int|
        0 <= i < writes.len() ==> m.contains_key((#[trigger] writes[i]).0@) && m[writes[i].0@]
            == writes[i].1
    &&& forall|k: Seq<char>|
        #[trigger] m.contains_key(k) ==> exists|i: int| 0 <= i < writes.len() && writes[i].0@ == k
}

/// What the caller does after a master applied a write: forward it to every
/// slave and, unless the master is being rebuilt, append `aof_line` to the
/// append-only file.
pub struct Replication {
    pub key: String,
    pub value: String,
    pub aof_line: Option<String>,
}

/// The next thing to do while replicating a write.
#[derive(Clone, Copy, Debug, PartialEq, Eq, Structural)]
pub enum ReplicationAction {
    /// Forward the write to this slave.
    Forward(usize),
    /// Append the write's record to the append-only file.
    AppendLog,
    /// The write is replicated.
    Finish,
    /// A slave failed: give up, and answer with its error.
    Abort,
}

/// The next step of replicating a write to `slaves` slaves, after the first
/// `acknowledged` of them took it and, if `failed`, the next one refused it;
/// `logs` says whether the write is to be recorded in the append-only file.
/// The slaves are asked one after another; the first refusal ends the work,
/// and the record is appended only once every slave took the write.
pub open spec fn replication_action(slaves: nat, acknowledged: nat, failed: bool, logs: bool) -> ReplicationAction {
    if failed {
        ReplicationAction::Abort
    } else if acknowledged < slaves {
        ReplicationAction::Forward(acknowledged as usize)
    } else if logs {
        ReplicationAction::AppendLog
    } else {
        ReplicationAction::Finish
    }
}

impl Replication {
    /// The next step of replicating this write to `slaves` slaves, after the
    /// first `acknowledged` took it and, if `failed`, the next one refused it.
    pub fn next_action(&self, slaves: usize, acknowledged: usize, failed: bool) -> (a:
        ReplicationAction)
        requires
            acknowledged <= slaves,
        ensures
            a == replication_action(
                slaves as nat,
                acknowledged as nat,
                failed,
                self.aof_line is Some,
            ),
            failed ==> a == ReplicationAction::Abort,
            !failed && acknowledged < slaves ==> a == ReplicationAction::Forward(acknowledged),
            !failed && acknowledged == slaves && self.aof_line is Some ==> a
                == ReplicationAction::AppendLog,
            !failed && acknowledged == slaves && self.aof_line is None ==> a
                == ReplicationAction::Finish,
    {
        if failed {
            ReplicationAction::Abort
        } else if acknowledged < slaves {
            ReplicationAction::Forward(acknowledged)
        } else if self.aof_line.is_some() {
            ReplicationAction::AppendLog
        } else {
            ReplicationAction::Finish
        }
    }
}

/// A write is recorded in the append-only file only after every slave took
/// it, and no slave is asked after one refused.
pub proof fn lemma_log_follows_every_slave(slaves: nat, acknowledged: nat, failed: bool, logs: bool)
    requires
        acknowledged <= slaves,
    ensures
        replication_action(slaves, acknowledged, failed, logs) == ReplicationAction::AppendLog
            ==> acknowledged == slaves && !failed && logs,
        failed ==> replication_action(slaves, acknowledged, failed, logs)
            == ReplicationAction::Abort,
{
}

/// The next thing to do while carrying out the writes that `exec` handed out.
#[derive(Clone, Copy, Debug, PartialEq, Eq, Structural)]
pub enum CommitAction {
    /// Apply this write with `set_item` outside a transaction, and replicate it.
    Apply(usize),
    /// Every write was applied: the transaction succeeded.
    Finish,
    /// A write could not be replicated: give up, and answer with its error.
    Abort,
}

/// The next step of carrying out `count` writes, after the first `applied`
/// of them went through and, if `failed`, the next one failed. The writes go
/// one after another in the order handed out; the first failure ends the
/// work, and the rest are not applied.
pub open spec fn commit_action(count: nat, applied: nat, failed: bool) -> CommitAction {
    if failed {
        CommitAction::Abort
    } else if applied < count {
        CommitAction::Apply(applied as usize)
    } else {
        CommitAction::Finish
    }
}

/// The next step of carrying out `writes`, after the first `applied` went
/// through and, if `failed`, the next one failed.
pub fn commit_next_action(writes: &Vec<(String, String)>, applied: usize, failed: bool) -> (a:
    CommitAction)
    requires
        applied <= writes@.len(),
    ensures
        a == commit_action(writes@.len(), applied as nat, failed),
        failed ==> a == CommitAction::Abort,
        !failed && applied < writes@.len() ==> a == CommitAction::Apply(applied),
        !failed && applied == writes@.len() ==> a == CommitAction::Finish,
{
    if failed {
        CommitAction::Abort
    } else if applied < writes.len() {
        CommitAction::Apply(applied)
    } else {
        CommitAction::Finish
    }
}

/// A transaction is answered as carried out only once every write it handed
/// out went through, in order; after a failure no further write is applied.
/// Then, by `lemma_commit_lays_queue_over_store`, the store holds the whole
/// queue laid over what it held.
pub proof fn lemma_commit_finishes_after_every_write(count: nat, applied: nat, failed: bool)
    requires
        applied <= count <= usize::MAX,
    ensures
        commit_action(count, applied, failed) == CommitAction::Finish ==> applied == count
            && !failed,
        commit_action(count, applied, failed) matches CommitAction::Apply(i) ==> i == applied
            && applied < count && !failed,
        failed ==> commit_action(count, applied, failed) == CommitAction::Abort,
{
}

/// Replication asks every slave in turn and gives up only on a refusal:
/// without a refusal the next step is to forward the write to the next slave
/// while some slave has not taken it; once every slave took it, the write is
/// appended to the log when it is to be logged (whatever the number of
/// slaves), and the work is over otherwise; a refusal always ends the work.
pub proof fn lemma_replication_reaches_every_slave(
    slaves: nat,
    acknowledged: nat,
    failed: bool,
    logs: bool,
)
    requires
        acknowledged <= slaves <= usize::MAX,
    ensures
        failed <==> replication_action(slaves, acknowledged, failed, logs)
            == ReplicationAction::Abort,
        !failed && acknowledged < slaves ==> replication_action(slaves, acknowledged, failed, logs)
            == ReplicationAction::Forward(acknowledged as usize),
        !failed && acknowledged == slaves && logs ==> replication_action(
            slaves,
            acknowledged,
            failed,
            logs,
        ) == ReplicationAction::AppendLog,
        !failed && acknowledged == slaves && !logs ==> replication_action(
            slaves,
            acknowledged,
            failed,
            logs,
        ) == ReplicationAction::Finish,
        replication_action(slaves, acknowledged, failed, logs) matches ReplicationAction::Forward(
            i,
        ) ==> i == acknowledged && i < slaves,
{
}

/// A write that a master applied outside a transaction, once every slave took
/// it, is appended to the log with its record line when the master is not
/// being rebuilt, whatever the number of slaves; a master being rebuilt
/// appends nothing.
pub proof fn lemma_applied_write_is_logged(
    rebuild: bool,
    key: Seq<char>,
    value: Seq<char>,
    rep: Replication,
    slaves: nat,
)
    requires
        slaves <= usize::MAX,
        rep.key@ == key,
        rep.value@ == value,
        if rebuild {
            rep.aof_line is None
        } else {
            rep.aof_line matches Some(line) && line@ == record_line(key, value)
        },
    ensures
        replication_action(slaves, slaves, false, rep.aof_line is Some) == if rebuild {
            ReplicationAction::Finish
        } else {
            ReplicationAction::AppendLog
        },
        !rebuild ==> rep.aof_line->0@ == key + seq![' '] + value + seq!['\r', '\n'],
{
}

/// Without a failure a commit never gives up early: while some handed-out
/// write has not gone through, the next step applies the next one; it
/// finishes exactly when every write went through; and it aborts exactly
/// when a write failed.
pub proof fn lemma_commit_applies_every_write(count: nat, applied: nat, failed: bool)
    requires
        applied <= count <= usize::MAX,
    ensures
        failed <==> commit_action(count, applied, failed) == CommitAction::Abort,
        !failed && applied < count ==> commit_action(count, applied, failed) == CommitAction::Apply(
            applied as usize,
        ),
        !failed ==> (commit_action(count, applied, failed) == CommitAction::Finish <==> applied
            == count),
{
}

/// What became of a write.
pub enum SetOutcome {
    /// It was queued in its transaction.
    Queued,
    /// It was applied to the shard; the caller carries out the replication.
    Applied(Replication),
}

/// Why a transaction was not carried out.
pub enum ExecError {
    /// This watched key holds something else than when it was watched.
    KeyChanged(String),
}

impl ExecError {
    /// The text of the error.
    pub fn message(&self) -> (s: String)
        ensures
            match self {
                ExecError::KeyChanged(k) => s@ == k@ + " was been changed"@,
            },
    {
        match self {
            ExecError::KeyChanged(k) => {
                let mut s = k.clone();
                push_str(&mut s, " was been changed");
                s
            },
        }
    }
}

/// The master of a shard.
pub struct MasterServiceS {
    store: StringHashMap<String>,
    commands: HashMap<i64, KeyedMap<String>>,
    watched: HashMap<i64, KeyedMap<Option<String>>>,
    rebuild: bool,
}

impl View for MasterServiceS {
    type V = MasterView;

    closed spec fn view(&self) -> MasterView {
        MasterView {
            store: self.store@,
            commands: self.commands@.map_values(|m: KeyedMap<String>| m@),
            watched: self.watched@.map_values(|m: KeyedMap<Option<String>>| m@),
            rebuild: self.rebuild,
        }
    }
}

impl MasterServiceS {
    /// The invariant of a master: its per-transaction maps are well formed,
    /// and a key watched while it held a value is still in the shard.
    pub closed spec fn wf(&self) -> bool {
        &&& forall|id: i64| #[trigger] self.commands@.contains_key(id) ==> self.commands@[id].wf()
        &&& forall|id: i64| #[trigger] self.watched@.contains_key(id) ==> self.watched@[id].wf()
        &&& held_keys_stay(self@)
    }

    /// A master with nothing stored and no transaction.
    pub fn new(rebuild: bool) -> (m: Self)
        ensures
            m.wf(),
            m@.store == Map::<Seq<char>, String>::empty(),
            m@.commands == Map::<i64, Map<Seq<char>, String>>::empty(),
            m@.watched == Map::<i64, Map<Seq<char>, Option<String>>>::empty(),
            m@.rebuild == rebuild,
    {
        let m = MasterServiceS {
            store: StringHashMap::new(),
            commands: HashMap::new(),
            watched: HashMap::new(),
            rebuild,
        };
        assert(m@.commands =~= Map::<i64, Map<Seq<char>, String>>::empty());
        assert(m@.watched =~= Map::<i64, Map<Seq<char>, Option<String>>>::empty());
        m
    }

    /// Whether the master is being rebuilt from its append-only file.
    pub fn rebuild(&self) -> (r: bool)
        ensures
            r == self@.rebuild,
    {
        self.rebuild
    }

    /// Switches rebuilding on or off.
    pub fn set_rebuild(&mut self, rebuild: bool)
        requires
            old(self).wf(),
        ensures
            final(self).wf(),
            final(self)@ == (MasterView { rebuild, ..old(self)@ }),
    {
        self.rebuild = rebuild;
    }

    /// Whether transaction `id` has been opened or has a watched key.
    pub fn has_transaction(&self, id: i64) -> (r: bool)
        ensures
            r == self@.watched.contains_key(id),
    {
        self.watched.contains_key(&id)
    }

    /// The value of `key` in the shard.
    pub fn get_item(&self, key: &str) -> (r: Option<String>)
        ensures
            match r {
                Some(v) => self@.store.contains_key(key@) && v == self@.store[key@],
                None => !self@.store.contains_key(key@),
            },
    {
        match self.store.get(key) {
            Some(v) => Some(v.clone()),
            None => None,
        }
    }

    /// Writes `value` to `key`. Inside transaction `id` the write is only
    /// queued; outside a transaction it is applied to the shard, and the
    /// outcome says what to forward to the slaves and the append-only file.
    pub fn set_item(&mut self, key: String, value: String, transaction_id: Option<i64>) -> (r:
        SetOutcome)
        requires
            old(self).wf(),
        ensures
            final(self).wf(),
            match transaction_id {
                Some(id) => {
                    &&& r is Queued
                    &&& final(self)@ == apply_op(old(self)@, MasterOp::Queue(id, key@, value))
                    &&& final(self)@ == (MasterView {
                        commands: old(self)@.commands.insert(
                            id,
                            queued(old(self)@, id).insert(key@, value),
                        ),
                        ..old(self)@
                    })
                },
                None => {
                    &&& final(self)@ == apply_op(old(self)@, MasterOp::Put(key@, value))
                    &&& final(self)@ == (MasterView {
                        store: old(self)@.store.insert(key@, value),
                        ..old(self)@
                    })
                    &&& r matches SetOutcome::Applied(rep)
                    &&& rep.key == key
                    &&& rep.value == value
                    &&& if old(self)@.rebuild {
                        rep.aof_line is None
                    } else {
                        rep.aof_line matches Some(line) && line@ == record_line(key@, value@)
                    }
                },
            },
    {
        match transaction_id {
            Some(id) => {
                let ghost old_view = self@;
                let mut pending = match self.commands.remove(&id) {
                    Some(m) => m,
                    None => KeyedMap::new(),
                };
                assert(pending@ == queued(old_view, id));
                pending.insert(key, value);
                self.commands.insert(id, pending);
                assert(self@.commands =~= old_view.commands.insert(id, pending@));
                SetOutcome::Queued
            },
            None => {
                let ghost old_view = self@;
                let aof_line = if self.rebuild {
                    None
                } else {
                    Some(encode_record(key.as_str(), value.as_str()))
                };
                let rep = Replication { key: key.clone(), value: value.clone(), aof_line };
                self.store.insert(key, value);
                assert(self@.commands =~= old_view.commands);
                assert(self@.watched =~= old_view.watched);
                SetOutcome::Applied(rep)
            },
        }
    }

    /// Opens transaction `id`, with nothing queued and nothing watched.
    pub fn server_multi(&mut self, transaction_id: i64) -> (r: Reply)
        requires
            old(self).wf(),
        ensures
            final(self).wf(),
            r == Reply::EnteredTransaction,
            final(self)@ == apply_op(old(self)@, MasterOp::Open(transaction_id)),
            final(self)@ == (MasterView {
                commands: old(self)@.commands.insert(transaction_id, Map::empty()),
                watched: old(self)@.watched.insert(transaction_id, Map::empty()),
                ..old(self)@
            }),
    {
        let ghost old_view = self@;
        let c = KeyedMap::new();
        let w = KeyedMap::new();
        self.commands.insert(transaction_id, c);
        self.watched.insert(transaction_id, w);
        assert(self@.commands =~= old_view.commands.insert(transaction_id, Map::empty()));
        assert(self@.watched =~= old_view.watched.insert(transaction_id, Map::empty()));
        Reply::EnteredTransaction
    }

    /// Watches `key` in transaction `id`: records the value it holds now.
    pub fn watch(&mut self, key: String, transaction_id: i64) -> (r: Reply)
        requires
            old(self).wf(),
        ensures
            final(self).wf(),
            r == Reply::WatchSet,
            final(self)@ == apply_op(old(self)@, MasterOp::Watch(transaction_id, key@)),
            final(self)@ == (MasterView {
                watched: old(self)@.watched.insert(
                    transaction_id,
                    watches(old(self)@, transaction_id).insert(
                        key@,
                        if old(self)@.store.contains_key(key@) {
                            Some(old(self)@.store[key@])
                        } else {
                            None
                        },
                    ),
                ),
                ..old(self)@
            }),
    {
        let ghost old_view = self@;
        let seen = match self.store.get(key.as_str()) {
            Some(v) => Some(v.clone()),
            None => None,
        };
        let mut w = match self.watched.remove(&transaction_id) {
            Some(m) => m,
            None => KeyedMap::new(),
        };
        assert(w@ == watches(old_view, transaction_id));
        w.insert(key, seen);
        self.watched.insert(transaction_id, w);
        assert(self@.watched =~= old_view.watched.insert(transaction_id, w@));
        Reply::WatchSet
    }

    /// Carries out transaction `id`. If a watched key holds something else
    /// than when it was watched, nothing changes and that key is named.
    /// Otherwise the queued writes leave the transaction and are returned,
    /// each once; the caller applies them in turn with `set_item` outside a
    /// transaction. The watched keys stay recorded.
    pub fn exec(&mut self, transaction_id: i64) -> (r: Result<Vec<(String, String)>, ExecError>)
        requires
            old(self).wf(),
            old(self)@.watched.contains_key(transaction_id),
        ensures
            final(self).wf(),
            r is Ok <==> !some_watch_broken(old(self)@.store, old(self)@.watched[transaction_id]),
            final(self)@ == apply_op(
                old(self)@,
                if r is Ok {
                    MasterOp::Commit(transaction_id)
                } else {
                    MasterOp::Keep
                },
            ),
            match r {
                Ok(writes) => {
                    &&& !some_watch_broken(old(self)@.store, old(self)@.watched[transaction_id])
                    &&& lists_exactly(writes@, queued(old(self)@, transaction_id))
                    &&& final(self)@ == (MasterView {
                        commands: old(self)@.commands.remove(transaction_id),
                        ..old(self)@
                    })
                },
                Err(ExecError::KeyChanged(k)) => {
                    &&& old(self)@.watched[transaction_id].contains_key(k@)
                    &&& watch_broken(
                        old(self)@.store,
                        k@,
                        old(self)@.watched[transaction_id][k@],
                    )
                    &&& final(self)@ == old(self)@
                },
            },
    {
        let ghost old_view = self@;
        let w = self.watched.get(&transaction_id).unwrap();
        proof {
            w.lemma_key_order();
        }
        let n = w.len();
        let mut i: usize = 0;
        while i < n
            invariant
                self@ == old_view,
                self.wf(),
                w@ == old_view.watched[transaction_id],
                w.wf(),
                n == w.key_order().len(),
                i <= n,
                forall|j: int|
                    0 <= j < i ==> !watch_broken(
                        old_view.store,
                        #[trigger] w.key_order()[j],
                        w@[w.key_order()[j]],
                    ),
            decreases n - i,
        {
            let k = w.key_at(i);
            proof {
                w.lemma_key_order();
                assert(w.key_order().contains(k@));
            }
            let seen = w.get(k.as_str()).unwrap();
            let broken = match seen {
                Some(v) => match self.store.get(k.as_str()) {
                    Some(cur) => !cur.eq(v),
                    None => true,
                },
                None => self.store.contains_key(k.as_str()),
            };
            if broken {
                return Err(ExecError::KeyChanged(k.clone()));
            }
            i = i + 1;
        }
        proof {
            w.lemma_key_order();
            assert forall|k: Seq<char>| #[trigger] w@.contains_key(k) implies !watch_broken(
                old_view.store,
                k,
                w@[k],
            ) by {
                assert(w.key_order().contains(k));
                let j = choose|j: int| 0 <= j < w.key_order().len() && w.key_order()[j] == k;
                assert(!watch_broken(old_view.store, w.key_order()[j], w@[w.key_order()[j]]));
            }
        }
        let mut writes: Vec<(String, String)> = Vec::new();
        match self.commands.remove(&transaction_id) {
            Some(m) => {
                assert(m.wf());
                assert(m@ == queued(old_view, transaction_id));
                proof {
                    m.lemma_key_order();
                }
                let count = m.len();
                let mut j: usize = 0;
                while j < count
                    invariant
                        m.wf(),
                        count == m.key_order().len(),
                        j <= count,
                        writes@.len() == j,
                        forall|a: int|
                            0 <= a < j ==> (#[trigger] writes@[a]).0@ == m.key_order()[a]
                                && m@.contains_key(writes@[a].0@) && m@[writes@[a].0@]
                                == writes@[a].1,
                    decreases count - j,
                {
                    let k = m.key_at(j);
                    proof {
                        m.lemma_key_order();
                        assert(m.key_order().contains(k@));
                    }
                    let v = m.get(k.as_str()).unwrap();
                    writes.push((k.clone(), v.clone()));
                    j = j + 1;
                }
                proof {
                    m.lemma_key_order();
                    assert forall|a: int, b: int|
                        0 <= a < b < writes@.len() implies (#[trigger] writes@[a]).0@
                        != (#[trigger] writes@[b]).0@ by {
                        assert(m.key_order()[a] != m.key_order()[b]);
                    }
                    assert forall|k: Seq<char>| #[trigger] m@.contains_key(k) implies exists|
                        a: int,
                    | 0 <= a < writes@.len() && writes@[a].0@ == k by {
                        assert(m.key_order().contains(k));
                        let a = choose|a: int|
                            0 <= a < m.key_order().len() && m.key_order()[a] == k;
                        assert(writes@[a].0@ == k);
                    }
                }
            },
            None => {
                assert(queued(old_view, transaction_id) =~= Map::<Seq<char>, String>::empty());
            },
        }
        assert(self@.commands =~= old_view.commands.remove(transaction_id));
        Ok(writes)
    }
}

/// The store after the writes `writes` were applied one after another.
pub open spec fn apply_writes(store: Map<Seq<char>, String>, writes: Seq<(String, String)>) -> Map<
    Seq<char>,
    String,
>
    decreases writes.len(),
{
    if writes.len() == 0 {
        store
    } else {
        apply_writes(store, writes.drop_last()).insert(writes.last().0@, writes.last().1)
    }
}

/// The writes that a transaction hands out, applied one after another in the
/// order given, leave the store as if the transaction's queued writes had
/// all been laid over it at once: the order of a commit does not matter.
pub proof fn lemma_commit_lays_queue_over_store(
    store: Map<Seq<char>, String>,
    writes: Seq<(String, String)>,
    queue: Map<Seq<char>, String>,
)
    requires
        lists_exactly(writes, queue),
    ensures
        apply_writes(store, writes) == store.union_prefer_right(queue),
    decreases writes.len(),
{
    if writes.len() == 0 {
        assert(queue =~= Map::<Seq<char>, String>::empty()) by {
            assert forall|k: Seq<char>| !queue.contains_key(k) by {
                if queue.contains_key(k) {
                    let i = choose|i: int| 0 <= i < writes.len() && writes[i].0@ == k;
                }
            }
        }
        assert(store.union_prefer_right(queue) =~= store);
    } else {
        let rest = writes.drop_last();
        let x = writes.last();
        let q = queue.remove(x.0@);
        assert(writes[writes.len() - 1] == x);
        assert forall|i: int, j: int|
            0 <= i < j < rest.len() implies (#[trigger] rest[i]).0@ != (#[trigger] rest[j]).0@ by {
            assert(rest[i] == writes[i] && rest[j] == writes[j]);
        }
        assert forall|i: int| 0 <= i < rest.len() implies q.contains_key(
            (#[trigger] rest[i]).0@,
        ) && q[rest[i].0@] == rest[i].1 by {
            assert(rest[i] == writes[i]);
            assert(writes[i].0@ != writes[writes.len() - 1].0@);
        }
        assert forall|k: Seq<char>| #[trigger] q.contains_key(k) implies exists|i: int|
            0 <= i < rest.len() && rest[i].0@ == k by {
            assert(queue.contains_key(k));
            let i = choose|i: int| 0 <= i < writes.len() && writes[i].0@ == k;
            assert(i != writes.len() - 1);
            assert(rest[i] == writes[i]);
        }
        lemma_commit_lays_queue_over_store(store, rest, q);
        assert(queue.contains_key(x.0@) && queue[x.0@] == x.1);
        assert(apply_writes(store, writes) =~= store.union_prefer_right(queue));
    }
}

/// A write made outside a transaction is what a read of its key then gives.
pub proof fn lemma_read_your_write(v: MasterView, key: Seq<char>, value: String)
    ensures
        ({
            let after = MasterView { store: v.store.insert(key, value), ..v };
            after.store.contains_key(key) && after.store[key] == value
        }),
{
}

/// A write queued in a transaction changes no read of the shard until the
/// transaction is carried out.
pub proof fn lemma_queued_write_is_invisible(v: MasterView, id: i64, key: Seq<char>, value: String)
    ensures
        ({
            let after = MasterView {
                commands: v.commands.insert(id, queued(v, id).insert(key, value)),
                ..v
            };
            after.store == v.store && queued(after, id).contains_key(key) && queued(after, id)[key]
                == value
        }),
{
}

/// One change that a master's methods make to its state.
pub enum MasterOp {
    /// `set_item` outside a transaction.
    Put(Seq<char>, String),
    /// `set_item` inside transaction `id`.
    Queue(i64, Seq<char>, String),
    /// `watch` of a key in transaction `id`.
    Watch(i64, Seq<char>),
    /// `server_multi` of transaction `id`.
    Open(i64),
    /// `exec` of transaction `id` that succeeded.
    Commit(i64),
    /// Any call that changes nothing: a read, or an `exec` that failed.
    Keep,
}

/// The value `k` holds in `store`, as a watch records it.
pub open spec fn current(store: Map<Seq<char>, String>, k: Seq<char>) -> Option<String> {
    if store.contains_key(k) {
        Some(store[k])
    } else {
        None
    }
}

/// The state after `op`.
pub open spec fn apply_op(v: MasterView, op: MasterOp) -> MasterView {
    match op {
        MasterOp::Put(k, val) => MasterView { store: v.store.insert(k, val), ..v },
        MasterOp::Queue(id, k, val) => MasterView {
            commands: v.commands.insert(id, queued(v, id).insert(k, val)),
            ..v
        },
        MasterOp::Watch(id, k) => MasterView {
            watched: v.watched.insert(id, watches(v, id).insert(k, current(v.store, k))),
            ..v
        },
        MasterOp::Open(id) => MasterView {
            commands: v.commands.insert(id, Map::empty()),
            watched: v.watched.insert(id, Map::empty()),
            ..v
        },
        MasterOp::Commit(id) => MasterView { commands: v.commands.remove(id), ..v },
        MasterOp::Keep => v,
    }
}

/// The state after the changes `ops`, in order.
pub open spec fn run_ops(v: MasterView, ops: Seq<MasterOp>) -> MasterView
    decreases ops.len(),
{
    if ops.len() == 0 {
        v
    } else {
        run_ops(apply_op(v, ops[0]), ops.drop_first())
    }
}

/// Whether `op` watches `k` again in transaction `id`, or reopens `id`.
pub open spec fn rewatches(op: MasterOp, id: i64, k: Seq<char>) -> bool {
    match op {
        MasterOp::Watch(j, key) => j == id && key == k,
        MasterOp::Open(j) => j == id,
        _ => false,
    }
}

/// A watch keeps the value it recorded through any later changes that do not
/// watch the same key again in the same transaction nor reopen it; so when
/// the transaction is carried out, it fails if that key then holds another
/// value than the recorded one (or holds one where it held none, or none
/// where it held one), whatever happened in between.
pub proof fn lemma_watch_holds_until_exec(
    v: MasterView,
    id: i64,
    k: Seq<char>,
    seen: Option<String>,
    ops: Seq<MasterOp>,
)
    requires
        v.watched.contains_key(id),
        v.watched[id].contains_key(k),
        v.watched[id][k] == seen,
        forall|i: int| 0 <= i < ops.len() ==> !rewatches(#[trigger] ops[i], id, k),
    ensures
        run_ops(v, ops).watched.contains_key(id),
        run_ops(v, ops).watched[id].contains_key(k),
        run_ops(v, ops).watched[id][k] == seen,
        watch_broken(run_ops(v, ops).store, k, seen) ==> some_watch_broken(
            run_ops(v, ops).store,
            run_ops(v, ops).watched[id],
        ),
    decreases ops.len(),
{
    if ops.len() > 0 {
        let next = apply_op(v, ops[0]);
        assert(!rewatches(ops[0], id, k));
        assert(next.watched.contains_key(id) && next.watched[id].contains_key(k)
            && next.watched[id][k] == seen);
        assert forall|i: int| 0 <= i < ops.drop_first().len() implies !rewatches(
            #[trigger] ops.drop_first()[i],
            id,
            k,
        ) by {
            assert(ops.drop_first()[i] == ops[i + 1]);
        }
        lemma_watch_holds_until_exec(next, id, k, seen, ops.drop_first());
    } else {
        let w = v.watched[id];
        if watch_broken(v.store, k, seen) {
            assert(w.contains_key(k) && watch_broken(v.store, k, w[k]));
        }
    }
}

/// A key watched in a transaction and left alone does not make it fail.
pub proof fn lemma_untouched_watch_holds(v: MasterView, id: i64, key: Seq<char>)
    ensures
        ({
            let seen = if v.store.contains_key(key) {
                Some(v.store[key])
            } else {
                None
            };
            let watched = MasterView {
                watched: v.watched.insert(id, watches(v, id).insert(key, seen)),
                ..v
            };
            !watch_broken(watched.store, key, watched.watched[id][key])
        }),
{
}

/// A key watched while it held a value is still in the store.
pub open spec fn held_keys_stay(v: MasterView) -> bool {
    forall|id: i64, k: Seq<char>|
        #![trigger v.watched[id][k]]
        v.watched.contains_key(id) && v.watched[id].contains_key(k) && v.watched[id][k] is Some
            ==> v.store.contains_key(k)
}

} // verus!
