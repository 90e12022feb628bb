use vstd::prelude::*;

use crate::table::{Slot, Table};

verus! {

/// The port a new cache reports.
pub const DEFAULT_PORT: u16 = 5022;

/// The abstract contents of a cache: each cluster name maps to the keys of
/// that cluster, and each key to its bytes.
pub type StoreModel = Map<Seq<char>, Map<Seq<char>, Seq<u8>>>;

/// The keys of cluster `c`; none when there is no such cluster.
pub open spec fn cluster_or_empty(m: StoreModel, c: Seq<char>) -> Map<Seq<char>, Seq<u8>> {
    if m.contains_key(c) {
        m[c]
    } else {
        Map::empty()
    }
}

/// The bytes under key `k` of cluster `c`, if both exist.
pub open spec fn lookup(m: StoreModel, c: Seq<char>, k: Seq<char>) -> Option<Seq<u8>> {
    if m.contains_key(c) && m[c].contains_key(k) {
        Some(m[c][k])
    } else {
        None
    }
}

/// `m` with `v` stored under key `k` of cluster `c`, the cluster created
/// when it is missing.
pub open spec fn stored_after_set(
    m: StoreModel,
    c: Seq<char>,
    k: Seq<char>,
    v: Seq<u8>,
) -> StoreModel {
    m.insert(c, cluster_or_empty(m, c).insert(k, v))
}

/// `m` with cluster `c` present; an existing cluster keeps its keys.
pub open spec fn stored_after_set_cluster(m: StoreModel, c: Seq<char>) -> StoreModel {
    m.insert(c, cluster_or_empty(m, c))
}

/// `m` without key `k` in cluster `c`; a missing cluster stays missing.
pub open spec fn stored_after_delete(m: StoreModel, c: Seq<char>, k: Seq<char>) -> StoreModel {
    if m.contains_key(c) {
        m.insert(c, m[c].remove(k))
    } else {
        m
    }
}

/// The views of a list of strings.
pub open spec fn string_views(v: Seq<String>) -> Seq<Seq<char>> {
    v.map_values(|s: String| s@)
}

/// `names` lists each element of `set` exactly once.
pub open spec fn lists_exactly(names: Seq<String>, set: Set<Seq<char>>) -> bool {
    &&& string_views(names).no_duplicates()
    &&& string_views(names).to_set() == set
}

/// A delete keeps every cluster, empty or not: only key `k` leaves cluster
/// `c`, and every other cluster is unchanged.
pub proof fn lemma_delete_keeps_clusters(m: StoreModel, c: Seq<char>, k: Seq<char>)
    ensures
        stored_after_delete(m, c, k).dom() == m.dom(),
        m.contains_key(c) ==> stored_after_delete(m, c, k)[c] == m[c].remove(k),
        forall|x: Seq<char>|
            x != c && m.contains_key(x) ==> #[trigger] stored_after_delete(m, c, k)[x] == m[x],
{
    if m.contains_key(c) {
        assert(stored_after_delete(m, c, k).dom() =~= m.dom());
    }
}

/// Deleting twice leaves the same store as deleting once.
pub proof fn lemma_delete_is_idempotent(m: StoreModel, c: Seq<char>, k: Seq<char>)
    ensures
        stored_after_delete(stored_after_delete(m, c, k), c, k) == stored_after_delete(m, c, k),
{
    if m.contains_key(c) {
        assert(m[c].remove(k).remove(k) =~= m[c].remove(k));
        assert(stored_after_delete(stored_after_delete(m, c, k), c, k) =~= stored_after_delete(
            m,
            c,
            k,
        ));
    }
}

/// Creating a cluster adds exactly that name to the clusters; every
/// existing cluster, empty or not, keeps its keys, and a new one is empty.
pub proof fn lemma_set_cluster_adds_only_it(m: StoreModel, c: Seq<char>)
    ensures
        stored_after_set_cluster(m, c).dom() == m.dom().insert(c),
        forall|x: Seq<char>| #[trigger]
            m.contains_key(x) ==> stored_after_set_cluster(m, c)[x] == m[x],
        !m.contains_key(c) ==> stored_after_set_cluster(m, c)[c].dom() == Set::<Seq<char>>::empty(),
{
    assert(stored_after_set_cluster(m, c).dom() =~= m.dom().insert(c));
    if !m.contains_key(c) {
        assert(stored_after_set_cluster(m, c)[c].dom() =~= Set::<Seq<char>>::empty());
    }
}

/// A write adds exactly its cluster name to the clusters, leaves every
/// other cluster as it was, and in its cluster adds exactly its key, with
/// the written bytes, keeping the other keys of that cluster.
pub proof fn lemma_set_changes_only_its_key(m: StoreModel, c: Seq<char>, k: Seq<char>, v: Seq<u8>)
    ensures
        stored_after_set(m, c, k, v).dom() == m.dom().insert(c),
        forall|x: Seq<char>|
            x != c && m.contains_key(x) ==> #[trigger] stored_after_set(m, c, k, v)[x] == m[x],
        stored_after_set(m, c, k, v)[c].dom() == (if m.contains_key(c) {
            m[c].dom()
        } else {
            Set::<Seq<char>>::empty()
        }).insert(k),
        stored_after_set(m, c, k, v)[c][k] == v,
        forall|y: Seq<char>|
            y != k && m.contains_key(c) && m[c].contains_key(y) ==> #[trigger] stored_after_set(
                m,
                c,
                k,
                v,
            )[c][y] == m[c][y],
{
    assert(stored_after_set(m, c, k, v).dom() =~= m.dom().insert(c));
    assert(stored_after_set(m, c, k, v)[c].dom() =~= (if m.contains_key(c) {
        m[c].dom()
    } else {
        Set::<Seq<char>>::empty()
    }).insert(k));
}

/// Clearing a cluster removes exactly that name and leaves every other
/// cluster as it was.
pub proof fn lemma_clear_cluster_removes_only_it(m: StoreModel, c: Seq<char>)
    ensures
        m.remove(c).dom() == m.dom().remove(c),
        forall|x: Seq<char>| x != c && m.contains_key(x) ==> #[trigger] m.remove(c)[x] == m[x],
{
    assert(m.remove(c).dom() =~= m.dom().remove(c));
}

/// A list that names each element of a set exactly once has one element per
/// member, and holds a name exactly when the set does.
pub proof fn lemma_lists_exactly_counts(names: Seq<String>, set: Set<Seq<char>>)
    requires
        lists_exactly(names, set),
    ensures
        names.len() == set.len(),
        forall|x: Seq<char>|
            set.contains(x) <==> exists|i: int| 0 <= i < names.len() && #[trigger] names[i]@ == x,
{
    let v = string_views(names);
    v.unique_seq_to_set();
    assert forall|x: Seq<char>|
        set.contains(x) <==> exists|i: int| 0 <= i < names.len() && #[trigger] names[i]@ == x by {
        if set.contains(x) {
            assert(v.to_set().contains(x));
            let i = choose|i: int| 0 <= i < v.len() && v[i] == x;
            assert(names[i]@ == x);
        }
        if exists|i: int| 0 <= i < names.len() && #[trigger] names[i]@ == x {
            let i = choose|i: int| 0 <= i < names.len() && #[trigger] names[i]@ == x;
            assert(v[i] == x);
            assert(v.contains(x));
        }
    }
}

/// A read after a write gives back the bytes that were written.
pub proof fn lemma_get_after_set(m: StoreModel, c: Seq<char>, k: Seq<char>, v: Seq<u8>)
    ensures
        lookup(stored_after_set(m, c, k, v), c, k) == Some(v),
{
}

/// A write leaves every other key of every cluster as it was.
pub proof fn lemma_set_keeps_other_entries(
    m: StoreModel,
    c: Seq<char>,
    k: Seq<char>,
    v: Seq<u8>,
    c2: Seq<char>,
    k2: Seq<char>,
)
    requires
        c2 != c || k2 != k,
    ensures
        lookup(stored_after_set(m, c, k, v), c2, k2) == lookup(m, c2, k2),
{
}

/// Of two writes to the same key, the later one wins.
pub proof fn lemma_last_set_wins(
    m: StoreModel,
    c: Seq<char>,
    k: Seq<char>,
    v1: Seq<u8>,
    v2: Seq<u8>,
)
    ensures
        stored_after_set(stored_after_set(m, c, k, v1), c, k, v2) == stored_after_set(m, c, k, v2),
{
    assert(cluster_or_empty(m, c).insert(k, v1).insert(k, v2) =~= cluster_or_empty(m, c).insert(
        k,
        v2,
    ));
    assert(stored_after_set(stored_after_set(m, c, k, v1), c, k, v2) =~= stored_after_set(
        m,
        c,
        k,
        v2,
    ));
}

/// After a delete the key reads as missing, and every other key is as it was.
pub proof fn lemma_get_after_delete(
    m: StoreModel,
    c: Seq<char>,
    k: Seq<char>,
    c2: Seq<char>,
    k2: Seq<char>,
)
    ensures
        lookup(stored_after_delete(m, c, k), c, k) is None,
        (c2 != c || k2 != k) ==> lookup(stored_after_delete(m, c, k), c2, k2) == lookup(m, c2, k2),
{
}

/// Deleting a key that a write has just added to an existing cluster gives
/// back the contents from before the write.
pub proof fn lemma_delete_undoes_fresh_set(m: StoreModel, c: Seq<char>, k: Seq<char>, v: Seq<u8>)
    requires
        m.contains_key(c),
        !m[c].contains_key(k),
    ensures
        stored_after_delete(stored_after_set(m, c, k, v), c, k) == m,
{
    assert(m[c].insert(k, v).remove(k) =~= m[c]);
    assert(stored_after_delete(stored_after_set(m, c, k, v), c, k) =~= m);
}

/// Once a cluster is cleared, none of its keys can be read, and the other
/// clusters are as they were.
pub proof fn lemma_get_after_clear_cluster(
    m: StoreModel,
    c: Seq<char>,
    k: Seq<char>,
    c2: Seq<char>,
    k2: Seq<char>,
)
    ensures
        lookup(m.remove(c), c, k) is None,
        !m.remove(c).contains_key(c),
        c2 != c ==> lookup(m.remove(c), c2, k2) == lookup(m, c2, k2),
{
}

/// Creating a cluster makes it present and changes no stored bytes.
pub proof fn lemma_set_cluster_keeps_entries(
    m: StoreModel,
    c: Seq<char>,
    c2: Seq<char>,
    k: Seq<char>,
)
    ensures
        stored_after_set_cluster(m, c).contains_key(c),
        lookup(stored_after_set_cluster(m, c), c2, k) == lookup(m, c2, k),
        m.contains_key(c) ==> stored_after_set_cluster(m, c) == m,
{
    if m.contains_key(c) {
        assert(stored_after_set_cluster(m, c) =~= m);
    }
}

/// A write makes its cluster and key visible among the names.
pub proof fn lemma_set_lists_cluster_and_key(
    m: StoreModel,
    c: Seq<char>,
    k: Seq<char>,
    v: Seq<u8>,
)
    ensures
        stored_after_set(m, c, k, v).dom().contains(c),
        stored_after_set(m, c, k, v)[c].dom().contains(k),
        stored_after_set(m, c, k, v).dom() == m.dom().insert(c),
{
    assert(stored_after_set(m, c, k, v).dom() =~= m.dom().insert(c));
}

/// An emptied cache reads as missing everywhere.
pub proof fn lemma_get_after_clear_all(c: Seq<char>, k: Seq<char>)
    ensures
        lookup(StoreModel::empty(), c, k) is None,
{
}


/// Replacing the keys of cluster slot `i` by a well-formed table keeps the
/// store well-formed and updates its model at that cluster.
proof fn lemma_cluster_replaced(
    before: &Table<Table<Vec<u8>>>,
    after: &Table<Table<Vec<u8>>>,
    i: int,
)
    requires
        before.wf(),
        forall|s: Slot<Table<Vec<u8>>>| #[trigger] before.slots@.contains(s) ==> s.value.wf(),
        0 <= i < before.slots@.len(),
        after.slots@ == before.slots@.update(i, after.slots@[i]),
        after.slots@[i].name == before.slots@[i].name,
        after.slots@[i].value.wf(),
    ensures
        after.wf(),
        forall|s: Slot<Table<Vec<u8>>>| #[trigger] after.slots@.contains(s) ==> s.value.wf(),
        after@ == before@.insert(before.names()[i], after.slots@[i].value@),
{
    let s = after.slots@[i];
    Table::lemma_update_value(before, after, i, s);
    assert forall|x: Slot<Table<Vec<u8>>>| #[trigger] after.slots@.contains(x) implies x.value.wf() by {
        let w = choose|w: int| 0 <= w < after.slots@.len() && after.slots@[w] == x;
        if w != i {
            assert(before.slots@[w] == x);
            assert(before.slots@.contains(x));
        }
    }
}

/// An in-memory store of byte values, grouped in named clusters of keys,
/// with the port that the service reports.
///
/// A clone is an independent copy with the same contents and port: writes
/// to one are not seen by the other. Callers that need one store seen from
/// several places share it as `Arc<Mutex<Cache>>`, as the service does.
#[derive(Debug)]
pub struct Cache {
    store: Table<Table<Vec<u8>>>,
    default_port: u16,
}

impl View for Cache {
    type V = StoreModel;

    closed spec fn view(&self) -> StoreModel {
        self.store@
    }
}

impl Clone for Cache {
    /// An independent copy with the same contents and port.
    fn clone(&self) -> (r: Self)
        ensures
            r@ == self@,
            r.port() == self.port(),
            r.well_formed() == self.well_formed(),
    {
        let store = self.store.duplicate_nested();
        let r = Cache { store, default_port: self.default_port };
        proof {
            if self.well_formed() {
                assert forall|s: Slot<Table<Vec<u8>>>| #[trigger] r.store.slots@.contains(s) implies s.value.wf() by {
                    let w = choose|w: int| 0 <= w < r.store.slots@.len() && r.store.slots@[w] == s;
                    assert(self.store.slots@.contains(self.store.slots@[w]));
                }
            }
            if r.well_formed() {
                assert forall|s: Slot<Table<Vec<u8>>>| #[trigger] self.store.slots@.contains(s) implies s.value.wf() by {
                    let w = choose|w: int| 0 <= w < self.store.slots@.len() && self.store.slots@[w] == s;
                    assert(r.store.slots@.contains(r.store.slots@[w]));
                }
            }
        }
        r
    }
}

impl Cache {
    /// Cluster names are distinct, and so are the keys of each cluster.
    pub closed spec fn well_formed(&self) -> bool {
        &&& self.store.wf()
        &&& forall|s: Slot<Table<Vec<u8>>>| #[trigger] self.store.slots@.contains(s) ==> s.value.wf()
    }

    /// The port that the cache reports.
    pub closed spec fn port(&self) -> u16 {
        self.default_port
    }

    /// An empty cache that reports port 5022.
    pub fn new() -> (cache: Self)
        ensures
            cache.well_formed(),
            cache@ == StoreModel::empty(),
            cache.port() == DEFAULT_PORT,
    {
        Cache { store: Table::new(), default_port: DEFAULT_PORT }
    }

    /// Stores `value` under `key` in `cluster`, creating the cluster when it
    /// is missing and replacing what the key held.
    pub fn set(&mut self, cluster: String, key: String, value: Vec<u8>)
        requires
            old(self).well_formed(),
        ensures
            final(self).well_formed(),
            final(self)@ == stored_after_set(old(self)@, cluster@, key@, value@),
            final(self).port() == old(self).port(),
            final(self)@.dom() == old(self)@.dom().insert(cluster@),
            final(self)@[cluster@][key@] == value@,
            forall|x: Seq<char>|
                x != cluster@ && old(self)@.contains_key(x) ==> #[trigger] final(self)@[x]
                    == old(self)@[x],
    {
        proof {
            lemma_set_changes_only_its_key(old(self)@, cluster@, key@, value@);
        }
        let ghost c = cluster@;
        let i = self.store.slot_for(cluster, Table::new());
        let ghost mid = self.store;
        proof {
            assert(mid.slots@.contains(mid.slots@[i as int]));
            mid.lemma_index_of(i as int);
        }
        self.store.slots[i].value.insert(key, value);
        proof {
            lemma_cluster_replaced(&mid, &self.store, i as int);
            assert(self@ =~= stored_after_set(old(self)@, c, key@, value@));
        }
    }

    /// Creates `cluster` with no keys when it is missing; an existing
    /// cluster keeps its keys.
    pub fn set_cluster(&mut self, cluster: String)
        requires
            old(self).well_formed(),
        ensures
            final(self).well_formed(),
            final(self)@ == stored_after_set_cluster(old(self)@, cluster@),
            final(self).port() == old(self).port(),
            final(self)@.dom() == old(self)@.dom().insert(cluster@),
            forall|x: Seq<char>| #[trigger]
                old(self)@.contains_key(x) ==> final(self)@[x] == old(self)@[x],
            !old(self)@.contains_key(cluster@) ==> final(self)@[cluster@].dom() == Set::<
                Seq<char>,
            >::empty(),
    {
        proof {
            lemma_set_cluster_adds_only_it(old(self)@, cluster@);
        }
        let ghost c = cluster@;
        let _ = self.store.slot_for(cluster, Table::new());
        assert(self@ =~= stored_after_set_cluster(old(self)@, c));
    }

    /// A copy of the bytes under `key` in `cluster`, if both exist.
    pub fn get(&self, cluster: &str, key: &str) -> (r: Option<Vec<u8>>)
        requires
            self.well_formed(),
        ensures
            match r {
                Some(v) => lookup(self@, cluster@, key@) == Some(v@),
                None => lookup(self@, cluster@, key@) is None,
            },
    {
        let cluster = cluster.to_owned();
        let key = key.to_owned();
        match self.store.find(&cluster) {
            Some(i) => {
                let inner = &self.store.slots[i].value;
                proof {
                    self.store.lemma_index_of(i as int);
                    assert(self.store.slots@.contains(self.store.slots@[i as int]));
                }
                match inner.get(&key) {
                    Some(v) => {
                        let copy = v.clone();
                        assert(copy@ =~= v@);
                        Some(copy)
                    },
                    None => None,
                }
            },
            None => None,
        }
    }

    /// The keys of `cluster`, each once and in no promised order; none when
    /// there is no such cluster.
    pub fn get_keys_of_cluster(&self, cluster: &str) -> (r: Option<Vec<String>>)
        requires
            self.well_formed(),
        ensures
            match r {
                Some(keys) => self@.contains_key(cluster@) && lists_exactly(
                    keys@,
                    self@[cluster@].dom(),
                ),
                None => !self@.contains_key(cluster@),
            },
    {
        let cluster = cluster.to_owned();
        match self.store.find(&cluster) {
            Some(i) => {
                proof {
                    self.store.lemma_index_of(i as int);
                    assert(self.store.slots@.contains(self.store.slots@[i as int]));
                }
                Some(self.store.slots[i].value.names_vec())
            },
            None => None,
        }
    }

    /// Removes `key` from `cluster`; nothing changes when either is missing.
    pub fn delete(&mut self, cluster: &str, key: &str)
        requires
            old(self).well_formed(),
        ensures
            final(self).well_formed(),
            final(self)@ == stored_after_delete(old(self)@, cluster@, key@),
            final(self).port() == old(self).port(),
            final(self)@.dom() == old(self)@.dom(),
            old(self)@.contains_key(cluster@) ==> final(self)@[cluster@] == old(
                self,
            )@[cluster@].remove(key@),
            forall|x: Seq<char>|
                x != cluster@ && old(self)@.contains_key(x) ==> #[trigger] final(self)@[x]
                    == old(self)@[x],
    {
        proof {
            lemma_delete_keeps_clusters(old(self)@, cluster@, key@);
        }
        let cluster = cluster.to_owned();
        let key = key.to_owned();
        match self.store.find(&cluster) {
            Some(i) => {
                let ghost mid = self.store;
                proof {
                    mid.lemma_index_of(i as int);
                    assert(mid.slots@.contains(mid.slots@[i as int]));
                }
                self.store.slots[i].value.remove(&key);
                proof {
                    lemma_cluster_replaced(&mid, &self.store, i as int);
                    assert(self@ =~= stored_after_delete(old(self)@, cluster@, key@));
                }
            },
            None => {},
        }
    }

    /// Removes `cluster` with all its keys.
    pub fn clear_cluster(&mut self, cluster: &str)
        requires
            old(self).well_formed(),
        ensures
            final(self).well_formed(),
            final(self)@ == old(self)@.remove(cluster@),
            final(self).port() == old(self).port(),
    {
        let cluster = cluster.to_owned();
        self.store.remove(&cluster);
    }

    /// Removes every cluster.
    pub fn clear_all(&mut self)
        requires
            old(self).well_formed(),
        ensures
            final(self).well_formed(),
            final(self)@ == StoreModel::empty(),
            final(self).port() == old(self).port(),
    {
        self.store.clear();
    }

    /// The cluster names, each once and in no promised order.
    pub fn get_all_clusters(&self) -> (r: Vec<String>)
        requires
            self.well_formed(),
        ensures
            lists_exactly(r@, self@.dom()),
    {
        self.store.names_vec()
    }

    /// Sets the port that the cache reports.
    pub fn configure_default_port(&mut self, port: u16)
        ensures
            final(self).port() == port,
            final(self)@ == old(self)@,
            final(self).well_formed() == old(self).well_formed(),
    {
        self.default_port = port;
    }

    /// The port that the cache reports.
    pub fn get_default_port(&self) -> (port: u16)
        ensures
            port == self.port(),
    {
        self.default_port
    }
}

} // verus!
