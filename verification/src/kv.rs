//! An in-memory key/value store whose state is the replay of a log of commands.
use vstd::prelude::*;
use crate::order::key_lt;
use crate::ordered_map::{
    items_map, items_sorted, lemma_items_map_push, lemma_sorted_items_unique, OrderedMap,
};

verus! {

/// A record of the store's log: a key was set to a value, or a key was removed.
#[derive(Debug)]
pub enum Command {
    SetValue { key: String, value: String },
    Remove { key: String },
}

/// Errors of the store's own logic.
#[derive(Debug, Clone, Copy, PartialEq, Eq, Structural)]
pub enum KvsError {
    /// A key to remove had no entry.
    KeyNotFound,
}

/// The position of a command in the log.
#[derive(Debug, Clone, Copy, PartialEq, Eq, Structural)]
pub struct CommandPos {
    pub pos: u64,
}

impl From<u64> for CommandPos {
    fn from(value: u64) -> (r: Self) {
        Self { pos: value }
    }
}

impl vstd::std_specs::convert::FromSpecImpl<u64> for CommandPos {
    open spec fn obeys_from_spec() -> bool {
        true
    }

    open spec fn from_spec(v: u64) -> CommandPos {
        CommandPos { pos: v }
    }
}

/// The state of the store as a map from keys to values.
pub type StoreMap = Map<Seq<char>, Seq<char>>;

/// What one command does to the store.
pub open spec fn apply_command(m: StoreMap, c: Command) -> StoreMap {
    match c {
        Command::SetValue { key, value } => m.insert(key@, value@),
        Command::Remove { key } => m.remove(key@),
    }
}

/// What a log does to the store: its commands applied in order.
pub open spec fn replay_log(m: StoreMap, log: Seq<Command>) -> StoreMap
    decreases log.len(),
{
    if log.len() == 0 {
        m
    } else {
        apply_command(replay_log(m, log.drop_last()), log.last())
    }
}

/// The value held at a key, if any.
pub open spec fn lookup(m: StoreMap, k: Seq<char>) -> Option<Seq<char>> {
    if m.contains_key(k) {
        Some(m[k])
    } else {
        None
    }
}

/// An optional string as an optional sequence of characters.
pub open spec fn opt_view(o: Option<String>) -> Option<Seq<char>> {
    match o {
        Some(s) => Some(s@),
        None => None,
    }
}

/// The key that a command names.
pub open spec fn command_key(c: Command) -> Seq<char> {
    match c {
        Command::SetValue { key, .. } => key@,
        Command::Remove { key } => key@,
    }
}

/// A compacted log: one `SetValue` per entry, keys strictly increasing.
pub open spec fn is_compacted(log: Seq<Command>) -> bool {
    &&& forall|i: int| 0 <= i < log.len() ==> #[trigger] log[i] is SetValue
    &&& forall|i: int, j: int|
        0 <= i < j < log.len() ==> key_lt(command_key(#[trigger] log[i]), command_key(#[trigger] log[j]))
}

/// Replaying two logs one after the other is replaying their concatenation: a store reopened
/// from a log that grew by appends holds what the store held after those appends.
pub proof fn law_replay_concat(m: StoreMap, a: Seq<Command>, b: Seq<Command>)
    ensures
        replay_log(m, a + b) == replay_log(replay_log(m, a), b),
    decreases b.len(),
{
    if b.len() == 0 {
        assert(a + b =~= a);
    } else {
        law_replay_concat(m, a, b.drop_last());
        assert((a + b).drop_last() =~= a + b.drop_last());
        assert((a + b).last() == b.last());
    }
}

/// A read gives back the value of the last write to its key, and a write leaves every other
/// key as it was.
pub proof fn law_get_after_set(m: StoreMap, k: Seq<char>, v: Seq<char>, other: Seq<char>)
    ensures
        lookup(m.insert(k, v), k) == Some(v),
        other != k ==> lookup(m.insert(k, v), other) == lookup(m, other),
{
}

/// After a removal the key has no value, and every other key is as it was.
pub proof fn law_get_after_remove(m: StoreMap, k: Seq<char>, other: Seq<char>)
    ensures
        lookup(m.remove(k), k) == None::<Seq<char>>,
        other != k ==> lookup(m.remove(k), other) == lookup(m, other),
{
}

/// Replaying nothing leaves the store as it was.
pub proof fn law_replay_empty(m: StoreMap)
    ensures
        replay_log(m, Seq::<Command>::empty()) == m,
{
}

/// Replaying a log that ends in `Remove { key }` removes exactly that key from what the rest of
/// the log left: the key has no value, and every other key keeps the value it had.
pub proof fn law_replay_remove(m: StoreMap, log: Seq<Command>, key: String)
    ensures
        replay_log(m, log.push(Command::Remove { key })) == replay_log(m, log).remove(key@),
        !replay_log(m, log.push(Command::Remove { key })).contains_key(key@),
        forall|q: Seq<char>|
            q != key@ ==> (#[trigger] replay_log(m, log.push(Command::Remove { key })).contains_key(q)
                <==> replay_log(m, log).contains_key(q)),
        forall|q: Seq<char>|
            q != key@ && replay_log(m, log).contains_key(q) ==> #[trigger] replay_log(
                m,
                log.push(Command::Remove { key }),
            )[q] == replay_log(m, log)[q],
{
    assert(log.push(Command::Remove { key }).drop_last() =~= log);
}

/// Replaying a log that ends in `SetValue { key, value }` gives the key that value and leaves
/// every other key as the rest of the log left it.
pub proof fn law_replay_set(m: StoreMap, log: Seq<Command>, key: String, value: String)
    ensures
        replay_log(m, log.push(Command::SetValue { key, value })) == replay_log(m, log).insert(
            key@,
            value@,
        ),
        replay_log(m, log.push(Command::SetValue { key, value })).contains_key(key@),
        replay_log(m, log.push(Command::SetValue { key, value }))[key@] == value@,
        forall|q: Seq<char>|
            q != key@ ==> (#[trigger] replay_log(
                m,
                log.push(Command::SetValue { key, value }),
            ).contains_key(q) <==> replay_log(m, log).contains_key(q)),
        forall|q: Seq<char>|
            q != key@ && replay_log(m, log).contains_key(q) ==> #[trigger] replay_log(
                m,
                log.push(Command::SetValue { key, value }),
            )[q] == replay_log(m, log)[q],
{
    assert(log.push(Command::SetValue { key, value }).drop_last() =~= log);
}

/// A read hands back the stored string itself: an absent value reads as `None`, and a present
/// one as exactly its characters.
pub proof fn law_read_is_exact(o: Option<String>, m: StoreMap, k: Seq<char>)
    ensures
        opt_view(None) == None::<Seq<char>>,
        o matches Some(s) ==> opt_view(o) == Some(s@),
        lookup(m, k) is None <==> !m.contains_key(k),
        m.contains_key(k) ==> lookup(m, k) == Some(m[k]),
{
}

/// Applying the same command twice has the effect of applying it once.
pub proof fn law_command_idempotent(m: StoreMap, c: Command)
    ensures
        apply_command(apply_command(m, c), c) == apply_command(m, c),
{
    match c {
        Command::SetValue { key, value } => {
            assert(m.insert(key@, value@).insert(key@, value@) =~= m.insert(key@, value@));
        },
        Command::Remove { key } => {
            assert(m.remove(key@).remove(key@) =~= m.remove(key@));
        },
    }
}

/// The entries that a log names, as plain values: each command's key with the value it sets.
pub open spec fn log_pairs(log: Seq<Command>) -> Seq<(Seq<char>, Seq<char>)> {
    log.map_values(
        |c: Command|
            match c {
                Command::SetValue { key, value } => (key@, value@),
                Command::Remove { key } => (key@, Seq::<char>::empty()),
            },
    )
}

/// A compacted log replays to the map of its entries.
pub proof fn lemma_compacted_replay(log: Seq<Command>)
    requires
        is_compacted(log),
    ensures
        items_sorted(log_pairs(log)),
        replay_log(Map::empty(), log) == items_map(log_pairs(log)),
    decreases log.len(),
{
    let p = log_pairs(log);
    assert forall|i: int, j: int| 0 <= i < j < p.len() implies key_lt(#[trigger] p[i].0, #[trigger] p[j].0) by {
        assert(log[i] is SetValue && log[j] is SetValue);
        assert(key_lt(command_key(log[i]), command_key(log[j])));
    }
    if log.len() == 0 {
        assert(items_map(p) =~= Map::<Seq<char>, Seq<char>>::empty());
    } else {
        let r = log.drop_last();
        assert forall|i: int| 0 <= i < r.len() implies #[trigger] r[i] is SetValue by {
            assert(r[i] == log[i]);
        }
        assert forall|i: int, j: int| 0 <= i < j < r.len() implies key_lt(
            command_key(#[trigger] r[i]),
            command_key(#[trigger] r[j]),
        ) by {
            assert(r[i] == log[i] && r[j] == log[j]);
        }
        lemma_compacted_replay(r);
        assert(log_pairs(r).push(p.last()) =~= p);
        lemma_items_map_push(log_pairs(r), p.last());
        assert(log.last() is SetValue);
    }
}

/// Compaction is canonical: two compacted logs that stand for the same store name the same
/// entries in the same order, so the compacted log depends on the store's contents alone.
pub proof fn law_compaction_canonical(a: Seq<Command>, b: Seq<Command>)
    requires
        is_compacted(a),
        is_compacted(b),
        replay_log(Map::empty(), a) == replay_log(Map::empty(), b),
    ensures
        log_pairs(a) == log_pairs(b),
{
    lemma_compacted_replay(a);
    lemma_compacted_replay(b);
    lemma_sorted_items_unique(log_pairs(a), log_pairs(b));
}

/// The log on disk keeps standing for the store: appending the command of an operation to a
/// log that replays to the store's state gives a log that replays to the state after it.
pub proof fn law_log_tracks_store(log: Seq<Command>, c: Command)
    ensures
        replay_log(Map::empty(), log.push(c)) == apply_command(replay_log(Map::empty(), log), c),
{
    assert(log.push(c).drop_last() =~= log);
}

/// A key/value store of strings, kept in memory and rebuilt from its log.
#[derive(Debug)]
pub struct KvStore {
    path: String,
    inner: OrderedMap,
}

impl View for KvStore {
    type V = StoreMap;

    closed spec fn view(&self) -> StoreMap {
        self.inner@
    }
}

impl KvStore {
    /// The store's internal order holds.
    pub closed spec fn wf(&self) -> bool {
        self.inner.wf()
    }

    /// The path of the store's log file.
    pub closed spec fn log_path(&self) -> Seq<char> {
        self.path@
    }

    /// Applies the commands of `log` to the store, in order.
    pub fn replay(kv: &mut KvStore, log: &Vec<Command>)
        requires
            old(kv).wf(),
        ensures
            final(kv).wf(),
            final(kv)@ == replay_log(old(kv)@, log@),
            final(kv).log_path() == old(kv).log_path(),
    {
        let n = log.len();
        let mut i: usize = 0;
        proof {
            assert(log@.take(0) =~= Seq::<Command>::empty());
        }
        while i < n
            invariant
                n == log@.len(),
                i <= n,
                kv.wf(),
                kv@ == replay_log(old(kv)@, log@.take(i as int)),
                kv.log_path() == old(kv).log_path(),
            decreases n - i,
        {
            match &log[i] {
                Command::SetValue { key, value } => {
                    kv.inner.insert(key.clone(), value.clone());
                },
                Command::Remove { key } => {
                    kv.inner.remove(key);
                },
            }
            proof {
                assert(log@.take(i + 1).drop_last() =~= log@.take(i as int));
                assert(log@.take(i + 1).last() == log@[i as int]);
            }
            i = i + 1;
        }
        proof {
            assert(log@.take(n as int) =~= log@);
        }
    }

    /// Opens the store whose log file is `path` and whose log holds the commands `log`:
    /// the store holds what the log leaves when replayed from nothing.
    pub fn open(path: String, log: &Vec<Command>) -> (kv: KvStore)
        ensures
            kv.wf(),
            kv@ == replay_log(Map::empty(), log@),
            kv.log_path() == path@,
    {
        let mut kv = KvStore { path, inner: OrderedMap::new() };
        KvStore::replay(&mut kv, log);
        kv
    }

    /// The path of the store's log file.
    pub fn path(&self) -> (p: &String)
        ensures
            p@ == self.log_path(),
    {
        &self.path
    }

    /// Whether `key` has an entry.
    pub fn contains_key(&self, key: &String) -> (b: bool)
        requires
            self.wf(),
        ensures
            b == self@.contains_key(key@),
    {
        self.inner.contains_key(key)
    }

    /// Sets `key` to `value`, then compacts the store; returns the compacted log, which
    /// replayed from nothing gives the store as it now stands.
    pub fn set(&mut self, key: String, value: String) -> (log: Vec<Command>)
        requires
            old(self).wf(),
        ensures
            final(self).wf(),
            final(self)@ == old(self)@.insert(key@, value@),
            final(self).log_path() == old(self).log_path(),
            log@.len() == final(self)@.len(),
            is_compacted(log@),
            replay_log(Map::empty(), log@) == final(self)@,
    {
        self.inner.insert(key, value);
        self.compaction()
    }

    /// The value of `key`; `None` where the key has no entry. Never fails.
    pub fn get(&self, key: String) -> (r: Result<Option<String>, KvsError>)
        requires
            self.wf(),
        ensures
            r matches Ok(o) && opt_view(o) == lookup(self@, key@),
            r matches Ok(o) && (o is None <==> !self@.contains_key(key@)),
            r matches Ok(Some(v)) ==> v@ == self@[key@],
    {
        match self.inner.get(&key) {
            None => Ok(None),
            Some(s) => Ok(Some(s.clone())),
        }
    }

    /// Removes `key`; fails with `KeyNotFound`, leaving the store as it was, where the key has
    /// no entry.
    pub fn remove(&mut self, key: String) -> (r: Result<(), KvsError>)
        requires
            old(self).wf(),
        ensures
            final(self).wf(),
            final(self).log_path() == old(self).log_path(),
            r is Err <==> !old(self)@.contains_key(key@),
            r matches Err(e) ==> e == KvsError::KeyNotFound && final(self)@ == old(self)@,
            r is Ok ==> final(self)@ == old(self)@.remove(key@),
    {
        if self.inner.get(&key).is_none() {
            return Err(KvsError::KeyNotFound);
        }
        self.inner.remove(&key);
        Ok(())
    }

    /// Rewrites the store from its own entries and returns the compacted log that stands for it:
    /// one `SetValue` per entry in increasing key order, which replayed from nothing gives the store.
    pub fn compaction(&mut self) -> (log: Vec<Command>)
        requires
            old(self).wf(),
        ensures
            final(self).wf(),
            final(self)@ == old(self)@,
            final(self).log_path() == old(self).log_path(),
            log@.len() == old(self)@.len(),
            is_compacted(log@),
            replay_log(Map::empty(), log@) == old(self)@,
    {
        proof {
            self.inner.lemma_wf();
        }
        let ghost items = self.inner.items();
        let n = self.inner.len();
        let mut log: Vec<Command> = Vec::new();
        let mut m = OrderedMap::new();
        let mut i: usize = 0;
        while i < n
            invariant
                n == items.len(),
                i <= n,
                self.wf(),
                self.inner.items() == items,
                items_sorted(items),
                m.wf(),
                log@.len() == i,
                forall|j: int| 0 <= j < i ==> #[trigger] log@[j] is SetValue,
                forall|j: int|
                    0 <= j < i ==> (command_key(#[trigger] log@[j]) == items[j].0 && match log@[j] {
                        Command::SetValue { value, .. } => value@ == items[j].1,
                        _ => false,
                    }),
                m@ == items_map(items.take(i as int)),
                replay_log(Map::empty(), log@) == m@,
            decreases n - i,
        {
            let ghost prev = log@;
            let (k, v) = self.inner.entry(i);
            log.push(Command::SetValue { key: k.clone(), value: v.clone() });
            m.insert(k.clone(), v.clone());
            proof {
                let t = items.take(i + 1);
                assert(t =~= items.take(i as int).push(items[i as int]));
                assert(items_sorted(t)) by {
                    assert forall|a: int, b: int| 0 <= a < b < t.len() implies key_lt(
                        #[trigger] t[a].0,
                        #[trigger] t[b].0,
                    ) by {
                        assert(t[a] == items[a] && t[b] == items[b]);
                    }
                }
                lemma_items_map_push(items.take(i as int), items[i as int]);
                assert(log@.drop_last() =~= prev);
            }
            i = i + 1;
        }
        proof {
            assert(items.take(n as int) =~= items);
            assert forall|a: int, b: int| 0 <= a < b < log@.len() implies key_lt(
                command_key(#[trigger] log@[a]),
                command_key(#[trigger] log@[b]),
            ) by {
                assert(key_lt(items[a].0, items[b].0));
            }
        }
        self.inner = m;
        log
    }
}

} // verus!
