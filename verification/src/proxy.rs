//! The proxy in front of the shards: it sends each key to the master of its
//! shard, spreads reads over that master and its slaves, and numbers the
//! transactions.

use crate::master::Replication;
use crate::reply::Reply;
use std::collections::hash_map::DefaultHasher;
use std::hash::{BuildHasher, BuildHasherDefault};
use vstd::prelude::*;

verus! {

/// The hash of a key, as `std::hash::BuildHasher::hash_one` of a
/// `BuildHasherDefault<DefaultHasher>` gives it for the key as a `str`: the
/// key hashed into a fresh `DefaultHasher`, which is not seeded per process.
/// `FastStr` hashes as its `str`, so this is also the hash of the key as a
/// `FastStr`.
pub uninterp spec fn key_hash_of(key: Seq<char>) -> u64;

/// Hashes a key with `BuildHasher::hash_one` over a fresh `DefaultHasher`;
/// the result is named `key_hash_of` of the key, and nothing more of the
/// hash function is stated.
#[verifier::external_body]
pub(crate) fn key_hash(key: &str) -> (h: u64)
    ensures
        h == key_hash_of(key@),
{
    BuildHasherDefault::<DefaultHasher>::default().hash_one(key)
}

/// The shard, among `masters` shards, of a key with hash `h`.
pub open spec fn shard_of(h: u64, masters: nat) -> nat {
    ((h as usize) as nat) % masters
}

/// Where a read is sent.
#[derive(Clone, Copy, Debug, PartialEq, Eq, Structural)]
pub enum ReadTarget {
    /// To the master of this shard.
    Master(usize),
    /// To this slave (second number) of the master of this shard (first).
    Slave(usize, usize),
}

impl ReadTarget {
    /// The shard whose master or slave serves the read.
    pub open spec fn shard(self) -> nat {
        match self {
            ReadTarget::Master(m) => m as nat,
            ReadTarget::Slave(m, _) => m as nat,
        }
    }
}

/// Where a read of a key with hash `h` goes, when shard `i` has `slaves[i]`
/// slaves: the key's shard, and there the master and its slaves taken as
/// one list, the master first, indexed by the hash.
pub open spec fn read_target(h: u64, slaves: Seq<usize>) -> ReadTarget {
    let m = shard_of(h, slaves.len());
    let j = ((h as usize) as nat) % (slaves[m as int] + 1) as nat;
    if j == 0 {
        ReadTarget::Master(m as usize)
    } else {
        ReadTarget::Slave(m as usize, (j - 1) as usize)
    }
}

/// A read of a key goes to the shard whose master took the key's writes:
/// to that master itself or to one of its slaves.
pub proof fn lemma_reads_follow_writes(h: u64, slaves: Seq<usize>)
    requires
        0 < slaves.len() <= usize::MAX,
    ensures
        read_target(h, slaves).shard() == shard_of(h, slaves.len()),
{
}

/// One call on the proxy, as it bears on its state.
pub enum ProxyOp {
    /// `multi`, which hands out a transaction number.
    Multi,
    /// Any other call, which changes nothing.
    Other,
}

/// The state after `op`.
pub open spec fn proxy_apply(p: ProxyView, op: ProxyOp) -> ProxyView {
    match op {
        ProxyOp::Multi => ProxyView { transaction_id: (p.transaction_id + 1) as i64, ..p },
        ProxyOp::Other => p,
    }
}

/// The number of `multi` calls in `ops`.
pub open spec fn multis(ops: Seq<ProxyOp>) -> nat
    decreases ops.len(),
{
    if ops.len() == 0 {
        0
    } else {
        (if ops[0] is Multi {
            1nat
        } else {
            0nat
        }) + multis(ops.drop_first())
    }
}

/// The state after the calls `ops`, in order.
pub open spec fn proxy_run(p: ProxyView, ops: Seq<ProxyOp>) -> ProxyView
    decreases ops.len(),
{
    if ops.len() == 0 {
        p
    } else {
        proxy_run(proxy_apply(p, ops[0]), ops.drop_first())
    }
}

/// The transaction numbers that the `multi` calls of `ops` hand out, in order.
pub open spec fn handed_out(p: ProxyView, ops: Seq<ProxyOp>) -> Seq<int>
    decreases ops.len(),
{
    if ops.len() == 0 {
        Seq::empty()
    } else {
        let q = proxy_apply(p, ops[0]);
        (if ops[0] is Multi {
            seq![q.transaction_id as int]
        } else {
            Seq::empty()
        }) + handed_out(q, ops.drop_first())
    }
}

/// Over any sequence of calls on the proxy, the transaction counter never
/// decreases, and the numbers handed out grow strictly, each above the
/// counter's value before the sequence: no number is handed out twice.
pub proof fn lemma_transaction_numbers_never_repeat(p: ProxyView, ops: Seq<ProxyOp>)
    requires
        p.transaction_id + multis(ops) <= i64::MAX,
    ensures
        proxy_run(p, ops).transaction_id == p.transaction_id + multis(ops),
        proxy_run(p, ops).transaction_id >= p.transaction_id,
        handed_out(p, ops).len() == multis(ops),
        forall|i: int|
            0 <= i < handed_out(p, ops).len() ==> p.transaction_id < #[trigger] handed_out(
                p,
                ops,
            )[i] <= proxy_run(p, ops).transaction_id,
        forall|i: int, j: int|
            0 <= i < j < handed_out(p, ops).len() ==> #[trigger] handed_out(p, ops)[i]
                < #[trigger] handed_out(p, ops)[j],
    decreases ops.len(),
{
    if ops.len() > 0 {
        let q = proxy_apply(p, ops[0]);
        let rest = ops.drop_first();
        lemma_transaction_numbers_never_repeat(q, rest);
        let head = if ops[0] is Multi {
            seq![q.transaction_id as int]
        } else {
            Seq::<int>::empty()
        };
        let h = handed_out(p, ops);
        let t = handed_out(q, rest);
        assert(h == head + t);
        assert forall|i: int| 0 <= i < h.len() implies p.transaction_id < #[trigger] h[i]
            <= proxy_run(p, ops).transaction_id by {
            if i >= head.len() {
                assert(h[i] == t[i - head.len()]);
            }
        }
        assert forall|i: int, j: int| 0 <= i < j < h.len() implies #[trigger] h[i]
            < #[trigger] h[j] by {
            if i >= head.len() {
                assert(h[i] == t[i - head.len()]);
                assert(h[j] == t[j - head.len()]);
            } else {
                assert(h[j] == t[j - head.len()]);
            }
        }
    }
}

/// The store that serves a read sent to `t`, within the shard whose master
/// holds `master` and whose slaves hold `slaves`.
pub open spec fn serving_store(
    t: ReadTarget,
    master: Map<Seq<char>, String>,
    slaves: Seq<Map<Seq<char>, String>>,
) -> Map<Seq<char>, String> {
    match t {
        ReadTarget::Master(_) => master,
        ReadTarget::Slave(_, j) => slaves[j as int],
    }
}

/// A read through the proxy returns the write. A write of `value` to `key`
/// goes to the master of the key's shard; once that master applied it and
/// each of its slaves took the write that the master handed on, a read of
/// `key` goes to that same shard, to its master or to one of its slaves, and
/// finds `value` there. If every slave held what the master held before,
/// the store that serves the read holds everything the master holds after.
pub proof fn lemma_read_through_proxy_returns_write(
    shards: Seq<usize>,
    key: String,
    value: String,
    rep: Replication,
    master: Map<Seq<char>, String>,
    slaves: Seq<Map<Seq<char>, String>>,
)
    requires
        0 < shards.len() <= usize::MAX,
        slaves.len() == shards[shard_of(key_hash_of(key@), shards.len()) as int],
        rep.key == key,
        rep.value == value,
    ensures
        ({
            let h = key_hash_of(key@);
            let t = read_target(h, shards);
            let master_after = master.insert(key@, value);
            let slaves_after = slaves.map_values(
                |s: Map<Seq<char>, String>| s.insert(rep.key@, rep.value),
            );
            &&& t.shard() == shard_of(h, shards.len())
            &&& t matches ReadTarget::Slave(_, j) ==> j < slaves.len()
            &&& serving_store(t, master_after, slaves_after).contains_key(key@)
            &&& serving_store(t, master_after, slaves_after)[key@] == value
            &&& (forall|j: int| 0 <= j < slaves.len() ==> slaves[j] == master) ==> serving_store(
                t,
                master_after,
                slaves_after,
            ) == master_after
        }),
{
    let h = key_hash_of(key@);
    let m = shard_of(h, shards.len());
    let c = (shards[m as int] + 1) as nat;
    let x = (h as usize) as nat;
    assert(x % c < c) by {
        vstd::arithmetic::div_mod::lemma_mod_bound(x as int, c as int);
    }
}

/// Why the proxy refused a request.
#[derive(Clone, Copy, Debug, PartialEq, Eq, Structural)]
pub enum ProxyError {
    /// Some master failed to carry out the transaction.
    ExecFailed,
}

impl ProxyError {
    /// The text of the error.
    pub open spec fn spec_text(self) -> Seq<char> {
        match self {
            ProxyError::ExecFailed => "EXEC failed"@,
        }
    }

    /// The text of the error.
    pub fn message(&self) -> (s: String)
        ensures
            s@ == self.spec_text(),
    {
        match self {
            ProxyError::ExecFailed => "EXEC failed".to_owned(),
        }
    }
}

/// The abstract state of the proxy.
pub struct ProxyView {
    /// For each shard, the number of slaves of its master.
    pub slaves: Seq<usize>,
    /// The last transaction number handed out.
    pub transaction_id: i64,
}

/// The proxy.
pub struct ProxyServiceS {
    slaves: Vec<usize>,
    transaction_id: i64,
}

impl View for ProxyServiceS {
    type V = ProxyView;

    closed spec fn view(&self) -> ProxyView {
        ProxyView { slaves: self.slaves@, transaction_id: self.transaction_id }
    }
}

/// No shard has so many slaves that it and its master cannot be counted.
pub open spec fn countable(slaves: Seq<usize>) -> bool {
    forall|i: int| 0 <= i < slaves.len() ==> slaves[i] < usize::MAX
}

impl ProxyServiceS {
    /// Every shard's master and slaves can be counted in a `usize`.
    #[verifier::type_invariant]
    spec fn inv(&self) -> bool {
        countable(self.slaves@)
    }

    /// A proxy for shards whose masters have `slave_counts[i]` slaves each,
    /// before any transaction.
    pub fn new(slave_counts: Vec<usize>) -> (p: Self)
        requires
            countable(slave_counts@),
        ensures
            p@ == (ProxyView { slaves: slave_counts@, transaction_id: 0 }),
    {
        ProxyServiceS { slaves: slave_counts, transaction_id: 0 }
    }

    /// The number of shards.
    pub fn master_count(&self) -> (n: usize)
        ensures
            n == self@.slaves.len(),
    {
        self.slaves.len()
    }

    /// The last transaction number handed out.
    pub fn transaction_id(&self) -> (t: i64)
        ensures
            t == self@.transaction_id,
    {
        self.transaction_id
    }

    /// The shard, among this proxy's shards, of a key whose hash is `h`.
    pub fn shard_for_hash(&self, h: u64) -> (m: usize)
        requires
            self@.slaves.len() > 0,
        ensures
            m == shard_of(h, self@.slaves.len()),
            m < self@.slaves.len(),
    {
        (h as usize) % self.slaves.len()
    }

    /// Where a read of a key whose hash is `h` goes.
    pub fn read_target_for_hash(&self, h: u64) -> (t: ReadTarget)
        requires
            self@.slaves.len() > 0,
        ensures
            t == read_target(h, self@.slaves),
            match t {
                ReadTarget::Master(m) => m < self@.slaves.len(),
                ReadTarget::Slave(m, s) => m < self@.slaves.len() && s < self@.slaves[m as int],
            },
    {
        proof {
            use_type_invariant(self);
        }
        let m = (h as usize) % self.slaves.len();
        let count = self.slaves[m] + 1;
        let j = (h as usize) % count;
        if j == 0 {
            ReadTarget::Master(m)
        } else {
            ReadTarget::Slave(m, j - 1)
        }
    }

    /// The shard whose master takes a write of `key`.
    pub fn set_item(&self, key: &str) -> (m: usize)
        requires
            self@.slaves.len() > 0,
        ensures
            m == shard_of(key_hash_of(key@), self@.slaves.len()),
            m < self@.slaves.len(),
    {
        let h = key_hash(key);
        self.shard_for_hash(h)
    }

    /// The shard whose master records a watch of `key`.
    pub fn watch(&self, key: &str) -> (m: usize)
        requires
            self@.slaves.len() > 0,
        ensures
            m == shard_of(key_hash_of(key@), self@.slaves.len()),
            m < self@.slaves.len(),
    {
        let h = key_hash(key);
        self.shard_for_hash(h)
    }

    /// Where a read of `key` goes.
    pub fn get_item(&self, key: &str) -> (t: ReadTarget)
        requires
            self@.slaves.len() > 0,
        ensures
            t == read_target(key_hash_of(key@), self@.slaves),
            match t {
                ReadTarget::Master(m) => m < self@.slaves.len(),
                ReadTarget::Slave(m, s) => m < self@.slaves.len() && s < self@.slaves[m as int],
            },
    {
        let h = key_hash(key);
        self.read_target_for_hash(h)
    }

    /// Hands out the next transaction number.
    pub fn multi(&mut self) -> (id: i64)
        requires
            old(self)@.transaction_id < i64::MAX,
        ensures
            id == old(self)@.transaction_id + 1,
            final(self)@ == proxy_apply(old(self)@, ProxyOp::Multi),
            id == final(self)@.transaction_id,
    {
        proof {
            use_type_invariant(&*self);
        }
        self.transaction_id = self.transaction_id + 1;
        self.transaction_id
    }

    /// The answer to a transaction, given whether each master carried it out.
    pub fn exec(&self, outcomes: &Vec<bool>) -> (r: Result<Reply, ProxyError>)
        ensures
            r == if forall|i: int| 0 <= i < outcomes@.len() ==> outcomes@[i] {
                Ok::<Reply, ProxyError>(Reply::ExecSucceeded)
            } else {
                Err::<Reply, ProxyError>(ProxyError::ExecFailed)
            },
    {
        let mut failed = false;
        let mut i: usize = 0;
        while i < outcomes.len()
            invariant
                i <= outcomes@.len(),
                failed == exists|j: int| 0 <= j < i && !outcomes@[j],
            decreases outcomes@.len() - i,
        {
            if !outcomes[i] {
                failed = true;
            }
            i = i + 1;
        }
        if failed {
            Err(ProxyError::ExecFailed)
        } else {
            Ok(Reply::ExecSucceeded)
        }
    }
}

} // verus!
