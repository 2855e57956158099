//! The daemon's watch list.
//!
//! The authoritative in-memory state maps each watched repository path
//! to the configurations attached to it, kept in strictly increasing
//! order of delay. The daemon's API mutates this state; after every
//! successful mutation the caller persists the file form produced
//! here.

use vstd::prelude::*;
use crate::config::Config;
use crate::debounce::delays_ascending;
use crate::paths::clone_bytes;
use crate::redirect::bytes_eq;

verus! {

/// The configurations attached to one watched path, one per debounce
/// tier, in strictly increasing order of delay.
pub struct WatchListEntry {
    /// The tiers, ordered by strictly increasing delay.
    pub configs: Vec<Config>,
}

/// The daemon's authoritative state: the watch list, and whether a
/// shutdown was requested.
pub struct ApiState {
    /// Watched paths with their entries; keys are distinct.
    pub paths: Vec<(Vec<u8>, WatchListEntry)>,
    /// A shutdown has been requested over the API.
    pub kill_requested: bool,
}

/// The watch list as a map from path to configuration tiers. When a
/// key repeats, the later pair wins.
pub open spec fn map_of(s: Seq<(Vec<u8>, WatchListEntry)>) -> Map<Seq<u8>, Seq<Config>>
    decreases s.len(),
{
    if s.len() == 0 {
        Map::empty()
    } else {
        map_of(s.drop_last()).insert(s.last().0@, s.last().1.configs@)
    }
}

/// Keys are pairwise distinct.
pub open spec fn keys_distinct(s: Seq<(Vec<u8>, WatchListEntry)>) -> bool {
    forall|i: int, j: int| 0 <= i < j < s.len() ==> (#[trigger] s[i]).0@ != (#[trigger] s[j]).0@
}

/// The index of the first configuration whose delay is at least `d`,
/// or the length when every delay is smaller.
pub open spec fn first_geq(cfgs: Seq<Config>, d: u64) -> int
    decreases cfgs.len(),
{
    if cfgs.len() == 0 {
        0
    } else if cfgs[0].delay >= d {
        0
    } else {
        1 + first_geq(cfgs.drop_first(), d)
    }
}

/// `first_geq` points at the first delay at least `d`.
pub proof fn lemma_first_geq(cfgs: Seq<Config>, d: u64)
    ensures
        0 <= first_geq(cfgs, d) <= cfgs.len(),
        forall|k: int| 0 <= k < first_geq(cfgs, d) ==> (#[trigger] cfgs[k]).delay < d,
        first_geq(cfgs, d) < cfgs.len() ==> cfgs[first_geq(cfgs, d)].delay >= d,
    decreases cfgs.len(),
{
    if cfgs.len() > 0 && cfgs[0].delay < d {
        lemma_first_geq(cfgs.drop_first(), d);
        assert forall|k: int| 0 <= k < first_geq(cfgs, d) implies (#[trigger] cfgs[k]).delay
            < d by {
            if k > 0 {
                assert(cfgs.drop_first()[k - 1] == cfgs[k]);
            }
        }
        if first_geq(cfgs, d) < cfgs.len() {
            assert(cfgs.drop_first()[first_geq(cfgs.drop_first(), d)] == cfgs[first_geq(cfgs, d)]);
        }
    }
}

/// A new tier joins an entry: it takes its place in delay order, and a
/// tier with the very same delay is replaced by it.
pub open spec fn insert_config(cfgs: Seq<Config>, c: Config) -> Seq<Config> {
    let p = first_geq(cfgs, c.delay);
    let sk: int = if p < cfgs.len() && cfgs[p].delay == c.delay {
        p + 1
    } else {
        p
    };
    cfgs.take(p) + seq![c] + cfgs.skip(sk)
}

/// Inserting a tier keeps the delays strictly increasing, and the
/// entry is never left empty.
pub proof fn lemma_insert_config_ascending(cfgs: Seq<Config>, c: Config)
    requires
        delays_ascending(cfgs),
    ensures
        delays_ascending(insert_config(cfgs, c)),
        insert_config(cfgs, c).len() >= 1,
{
    lemma_first_geq(cfgs, c.delay);
    let p = first_geq(cfgs, c.delay);
    let sk: int = if p < cfgs.len() && cfgs[p].delay == c.delay {
        p + 1
    } else {
        p
    };
    let r = cfgs.take(p) + seq![c] + cfgs.skip(sk);
    assert forall|k: int| 0 < k < r.len() implies (#[trigger] r[k]).delay > r[k - 1].delay by {
        if k < p {
            assert(r[k] == cfgs[k] && r[k - 1] == cfgs[k - 1]);
        } else if k == p {
            assert(r[k] == c && r[k - 1] == cfgs[p - 1]);
        } else if k == p + 1 {
            assert(r[k] == cfgs[sk] && r[k - 1] == c);
            if sk == p + 1 {
                assert(cfgs[p + 1].delay > cfgs[p].delay);
            }
        } else {
            assert(r[k] == cfgs[sk + k - p - 1]);
            assert(r[k - 1] == cfgs[sk + k - p - 2]);
        }
    }
}

/// Insert a tier into an entry's configuration list, keeping the list
/// ordered by strictly increasing delay; an existing tier with the
/// same delay is replaced.
pub fn insert_config_vec(cfgs: &Vec<Config>, c: Config) -> (r: Vec<Config>)
    ensures
        r@ == insert_config(cfgs@, c),
{
    proof {
        lemma_first_geq(cfgs@, c.delay);
    }
    let ghost p = first_geq(cfgs@, c.delay);
    let mut out: Vec<Config> = Vec::new();
    let mut i: usize = 0;
    while i < cfgs.len() && cfgs[i].delay < c.delay
        invariant
            i <= cfgs.len(),
            forall|k: int| 0 <= k < i ==> (#[trigger] cfgs@[k]).delay < c.delay,
            out@ == cfgs@.take(i as int),
        decreases cfgs.len() - i,
    {
        out.push(cfgs[i].clone());
        i += 1;
        proof {
            assert(out@ =~= cfgs@.take(i as int));
        }
    }
    proof {
        assert(i as int == p) by {
            if (i as int) < p {
                assert(cfgs@[i as int].delay < c.delay);
            }
            if p < i as int {
                assert(cfgs@[p].delay < c.delay);
            }
        }
    }
    let d = c.delay;
    out.push(c);
    let mut j: usize = i;
    if j < cfgs.len() && cfgs[j].delay == d {
        j += 1;
    }
    let ghost sk = j as int;
    proof {
        assert(out@ =~= cfgs@.take(p) + seq![c] + cfgs@.subrange(sk, sk));
    }
    while j < cfgs.len()
        invariant
            0 <= p <= sk <= j <= cfgs.len(),
            out@ == cfgs@.take(p) + seq![c] + cfgs@.subrange(sk, j as int),
        decreases cfgs.len() - j,
    {
        out.push(cfgs[j].clone());
        j += 1;
        proof {
            assert(out@ =~= cfgs@.take(p) + seq![c] + cfgs@.subrange(sk, j as int));
        }
    }
    proof {
        assert(cfgs@.subrange(sk, cfgs@.len() as int) =~= cfgs@.skip(sk));
        assert(out@ =~= insert_config(cfgs@, c));
    }
    out
}

/// A key is in the map exactly when some pair carries it.
pub proof fn lemma_map_of_contains(s: Seq<(Vec<u8>, WatchListEntry)>, k: Seq<u8>)
    ensures
        map_of(s).contains_key(k) <==> exists|i: int| 0 <= i < s.len() && (#[trigger] s[i]).0@ == k,
    decreases s.len(),
{
    if s.len() > 0 {
        lemma_map_of_contains(s.drop_last(), k);
        if map_of(s).contains_key(k) {
            if s.last().0@ != k {
                let i = choose|i: int| 0 <= i < s.drop_last().len() && (#[trigger] s.drop_last()[i]).0@
                    == k;
                assert(s[i].0@ == k);
            } else {
                assert(s[s.len() - 1].0@ == k);
            }
        }
        if exists|i: int| 0 <= i < s.len() && (#[trigger] s[i]).0@ == k {
            let i = choose|i: int| 0 <= i < s.len() && (#[trigger] s[i]).0@ == k;
            if i < s.len() - 1 {
                assert(s.drop_last()[i].0@ == k);
            }
        }
    }
}

/// With distinct keys, the map reads back the pair that carries the
/// key.
pub proof fn lemma_map_of_index(s: Seq<(Vec<u8>, WatchListEntry)>, i: int)
    requires
        keys_distinct(s),
        0 <= i < s.len(),
    ensures
        map_of(s).contains_key(s[i].0@),
        map_of(s)[s[i].0@] == s[i].1.configs@,
    decreases s.len(),
{
    if i == s.len() - 1 {
    } else {
        assert(keys_distinct(s.drop_last()));
        assert(s.drop_last()[i] == s[i]);
        lemma_map_of_index(s.drop_last(), i);
        assert(s[i].0@ != s.last().0@);
    }
}

/// With distinct keys, updating the pair at `i` without changing its
/// key updates the map at that key.
pub proof fn lemma_map_of_update(
    s: Seq<(Vec<u8>, WatchListEntry)>,
    i: int,
    p: (Vec<u8>, WatchListEntry),
)
    requires
        keys_distinct(s),
        0 <= i < s.len(),
        p.0@ == s[i].0@,
    ensures
        map_of(s.update(i, p)) == map_of(s).insert(s[i].0@, p.1.configs@),
    decreases s.len(),
{
    let t = s.update(i, p);
    if i == s.len() - 1 {
        assert(t.drop_last() =~= s.drop_last());
        assert(t.last() == p);
        assert(map_of(t) =~= map_of(s).insert(s[i].0@, p.1.configs@));
    } else {
        assert(keys_distinct(s.drop_last()));
        assert(s.drop_last()[i] == s[i]);
        lemma_map_of_update(s.drop_last(), i, p);
        assert(t.drop_last() =~= s.drop_last().update(i, p));
        assert(t.last() == s.last());
        assert(s[i].0@ != s.last().0@);
        assert(map_of(t) =~= map_of(s).insert(s[i].0@, p.1.configs@));
    }
}

/// With distinct keys, removing the pair at `i` removes its key from
/// the map.
pub proof fn lemma_map_of_remove(s: Seq<(Vec<u8>, WatchListEntry)>, i: int)
    requires
        keys_distinct(s),
        0 <= i < s.len(),
    ensures
        map_of(s.remove(i)) == map_of(s).remove(s[i].0@),
    decreases s.len(),
{
    let t = s.remove(i);
    if i == s.len() - 1 {
        assert(t =~= s.drop_last());
        lemma_map_of_contains(s.drop_last(), s[i].0@);
        assert forall|j: int| 0 <= j < s.drop_last().len() implies (#[trigger] s.drop_last()[j]).0@
            != s[i].0@ by {
            assert(s[j] == s.drop_last()[j]);
        }
        assert(!map_of(s.drop_last()).contains_key(s[i].0@));
        assert(map_of(t) =~= map_of(s).remove(s[i].0@));
    } else {
        assert(keys_distinct(s.drop_last()));
        assert(s.drop_last()[i] == s[i]);
        lemma_map_of_remove(s.drop_last(), i);
        assert(t.drop_last() =~= s.drop_last().remove(i));
        assert(t.last() == s.last());
        assert(s[i].0@ != s.last().0@);
        assert(map_of(t) =~= map_of(s).remove(s[i].0@));
    }
}

impl ApiState {
    /// The watch list as a map from path to configuration tiers.
    pub open spec fn watch_map(&self) -> Map<Seq<u8>, Seq<Config>> {
        map_of(self.paths@)
    }

    /// The watched paths, in list order.
    pub open spec fn keys_seq(&self) -> Seq<Seq<u8>> {
        Seq::new(self.paths@.len(), |i: int| self.paths@[i].0@)
    }

    /// Structural soundness: keys are distinct and every entry holds
    /// at least one tier, in strictly increasing delay order.
    pub open spec fn wf(&self) -> bool {
        &&& keys_distinct(self.paths@)
        &&& forall|i: int|
            0 <= i < self.paths@.len() ==> delays_ascending(
                (#[trigger] self.paths@[i]).1.configs@,
            ) && self.paths@[i].1.configs@.len() >= 1
    }

    /// An empty watch list, with no shutdown requested.
    pub fn new() -> (r: ApiState)
        ensures
            r.wf(),
            r.watch_map() == Map::<Seq<u8>, Seq<Config>>::empty(),
            !r.kill_requested,
            r.paths@.len() == 0,
    {
        ApiState { paths: Vec::new(), kill_requested: false }
    }

    /// The position of `path` in the list, if it is watched.
    fn find_path(&self, path: &Vec<u8>) -> (r: Option<usize>)
        ensures
            r matches Some(i) ==> i < self.paths@.len() && self.paths@[i as int].0@ == path@,
            r is None ==> forall|i: int|
                0 <= i < self.paths@.len() ==> (#[trigger] self.paths@[i]).0@ != path@,
    {
        let mut i: usize = 0;
        while i < self.paths.len()
            invariant
                i <= self.paths@.len(),
                forall|j: int| 0 <= j < i ==> (#[trigger] self.paths@[j]).0@ != path@,
            decreases self.paths@.len() - i,
        {
            if bytes_eq(&self.paths[i].0, path) {
                return Some(i);
            }
            i += 1;
        }
        None
    }

    /// What appending one configuration does to the map: a fresh path
    /// gets a single tier, a watched path has the tier inserted into
    /// its entry.
    pub open spec fn append_spec(m: Map<Seq<u8>, Seq<Config>>, k: Seq<u8>, c: Config) -> Map<
        Seq<u8>,
        Seq<Config>,
    > {
        if m.contains_key(k) {
            m.insert(k, insert_config(m[k], c))
        } else {
            m.insert(k, seq![c])
        }
    }

    /// Append new dir to watch list: attach `config` to `path`,
    /// creating the entry when the path was not watched, inserting a
    /// new tier when it was.
    pub fn append_watch_dir(&mut self, path: Vec<u8>, config: Config)
        requires
            old(self).wf(),
        ensures
            final(self).wf(),
            final(self).watch_map() == Self::append_spec(old(self).watch_map(), path@, config),
            final(self).kill_requested == old(self).kill_requested,
    {
        let found = self.find_path(&path);
        match found {
            Some(i) => {
                let ghost old_paths = self.paths@;
                let ghost k = self.paths@[i as int].0@;
                proof {
                    lemma_map_of_contains(old_paths, path@);
                    lemma_map_of_index(old_paths, i as int);
                    lemma_insert_config_ascending(old_paths[i as int].1.configs@, config);
                }
                let key = clone_bytes(&self.paths[i].0);
                let merged = insert_config_vec(&self.paths[i].1.configs, config);
                let newentry = WatchListEntry { configs: merged };
                let ghost np = (key, newentry);
                self.paths.set(i, (key, newentry));
                proof {
                    assert(self.paths@ == old_paths.update(i as int, np));
                    lemma_map_of_update(old_paths, i as int, np);
                    assert(np.1.configs@ == insert_config(map_of(old_paths)[k], config));
                    assert(self.watch_map() == Self::append_spec(map_of(old_paths), path@, config));
                    assert(keys_distinct(self.paths@)) by {
                        assert forall|a: int, b: int|
                            0 <= a < b < self.paths@.len() implies (#[trigger] self.paths@[a]).0@
                            != (#[trigger] self.paths@[b]).0@ by {
                            assert(self.paths@[a].0@ == old_paths[a].0@);
                            assert(self.paths@[b].0@ == old_paths[b].0@);
                        }
                    }
                    assert forall|m: int| 0 <= m < self.paths@.len() implies delays_ascending(
                        (#[trigger] self.paths@[m]).1.configs@,
                    ) && self.paths@[m].1.configs@.len() >= 1 by {
                        if m != i as int {
                            assert(self.paths@[m] == old_paths[m]);
                        }
                    }
                }
            },
            None => {
                proof {
                    lemma_map_of_contains(self.paths@, path@);
                }
                let ghost old_paths = self.paths@;
                self.paths.push((path, WatchListEntry { configs: vec![config] }));
                proof {
                    assert(self.paths@.drop_last() =~= old_paths);
                    assert(self.paths@.last().1.configs@ =~= seq![config]);
                    assert(delays_ascending(seq![config]));
                    assert(keys_distinct(self.paths@)) by {
                        assert forall|a: int, b: int|
                            0 <= a < b < self.paths@.len() implies (#[trigger] self.paths@[a]).0@
                            != (#[trigger] self.paths@[b]).0@ by {
                            if b < self.paths@.len() - 1 {
                                assert(self.paths@[a] == old_paths[a]);
                                assert(self.paths@[b] == old_paths[b]);
                            } else {
                                assert(self.paths@[a] == old_paths[a]);
                            }
                        }
                    }
                    assert forall|m: int| 0 <= m < self.paths@.len() implies delays_ascending(
                        (#[trigger] self.paths@[m]).1.configs@,
                    ) && self.paths@[m].1.configs@.len() >= 1 by {
                        if m < self.paths@.len() - 1 {
                            assert(self.paths@[m] == old_paths[m]);
                        }
                    }
                }
            },
        }
    }

    /// Remove specified dir from watch list. Returns the removed entry
    /// when the path was watched; leaves the state untouched and
    /// returns nothing otherwise.
    pub fn remove_watch_dir(&mut self, path: &Vec<u8>) -> (r: Option<WatchListEntry>)
        requires
            old(self).wf(),
        ensures
            final(self).wf(),
            final(self).kill_requested == old(self).kill_requested,
            old(self).watch_map().contains_key(path@) ==> (r matches Some(e) && e.configs@ == old(
                self,
            ).watch_map()[path@] && final(self).watch_map() == old(self).watch_map().remove(path@)),
            !old(self).watch_map().contains_key(path@) ==> r is None && *final(self) == *old(self),
    {
        proof {
            lemma_map_of_contains(self.paths@, path@);
        }
        let found = self.find_path(path);
        match found {
            Some(i) => {
                proof {
                    lemma_map_of_index(self.paths@, i as int);
                    lemma_map_of_remove(self.paths@, i as int);
                }
                let ghost old_paths = self.paths@;
                let (_, entry) = self.paths.remove(i);
                proof {
                    assert(keys_distinct(self.paths@)) by {
                        assert forall|a: int, b: int|
                            0 <= a < b < self.paths@.len() implies (#[trigger] self.paths@[a]).0@
                            != (#[trigger] self.paths@[b]).0@ by {
                            if b < i as int {
                                assert(self.paths@[a] == old_paths[a]);
                                assert(self.paths@[b] == old_paths[b]);
                            } else if a < i as int {
                                assert(self.paths@[a] == old_paths[a]);
                                assert(self.paths@[b] == old_paths[b + 1]);
                            } else {
                                assert(self.paths@[a] == old_paths[a + 1]);
                                assert(self.paths@[b] == old_paths[b + 1]);
                            }
                        }
                    }
                }
                Some(entry)
            },
            None => None,
        }
    }
}

/// The on-disk form of one watch-list entry.
pub struct WatchListFileEntry {
    /// The tiers attached to the path, as persisted.
    pub configs: Vec<Config>,
}

/// The on-disk form of the watch list: the persisted pairs. Watcher
/// handles and workers are not persisted; they are reconstructed by
/// replaying this file on startup.
pub struct WatchListFile {
    /// Path to persisted entry.
    pub paths: Vec<(Vec<u8>, WatchListFileEntry)>,
}

/// The envelope every API response is wrapped in.
pub enum ApiResponse<T> {
    /// The request was applied; the payload follows.
    Success {
        /// The response payload.
        data: T,
    },
    /// The request failed; a short message says why.
    Failed {
        /// What went wrong.
        message: String,
    },
}

/// The payload of a watch-list query: the watched paths.
pub struct WatchListResponse {
    /// The watched paths, in list order.
    pub paths: Vec<Vec<u8>>,
}

/// A watch-list change request.
pub enum ChangeWatchRequest {
    /// Attach a configuration to a path, watching it if new.
    Add {
        /// The repository path to watch.
        path: Vec<u8>,
        /// The configuration to attach.
        config: Config,
    },
    /// Stop watching a path.
    Remove {
        /// The repository path to drop.
        path: Vec<u8>,
    },
}

/// Copy a configuration list.
pub fn clone_configs(v: &Vec<Config>) -> (r: Vec<Config>)
    ensures
        r@ == v@,
{
    let mut r: Vec<Config> = Vec::new();
    let mut i: usize = 0;
    while i < v.len()
        invariant
            i <= v.len(),
            r@ == v@.take(i as int),
        decreases v.len() - i,
    {
        r.push(v[i].clone());
        i += 1;
        proof {
            assert(r@ =~= v@.take(i as int));
        }
    }
    proof {
        assert(r@ =~= v@);
    }
    r
}

/// API endpoint to get watch list: the watched paths, in list order,
/// wrapped in a success envelope.
pub fn get_watch_list(state: &ApiState) -> (r: ApiResponse<WatchListResponse>)
    ensures
        r matches ApiResponse::Success { data } && crate::paths::views(data.paths@)
            == state.keys_seq(),
{
    let mut paths: Vec<Vec<u8>> = Vec::new();
    let mut i: usize = 0;
    while i < state.paths.len()
        invariant
            i <= state.paths@.len(),
            crate::paths::views(paths@) == state.keys_seq().take(i as int),
        decreases state.paths@.len() - i,
    {
        let ghost old_p = paths@;
        paths.push(clone_bytes(&state.paths[i].0));
        i += 1;
        proof {
            assert(crate::paths::views(paths@) =~= crate::paths::views(old_p).push(
                state.paths@[i - 1].0@,
            ));
            assert(crate::paths::views(paths@) =~= state.keys_seq().take(i as int));
        }
    }
    proof {
        assert(crate::paths::views(paths@) =~= state.keys_seq());
    }
    ApiResponse::Success { data: WatchListResponse { paths } }
}

/// API endpoint to add/remove watch list entries. An addition always
/// succeeds; a removal fails, leaving the state untouched, exactly
/// when the path is not watched. The caller persists the state after
/// a success.
pub fn change_watch_list(state: &mut ApiState, req: ChangeWatchRequest) -> (r: ApiResponse<()>)
    requires
        old(state).wf(),
    ensures
        final(state).wf(),
        final(state).kill_requested == old(state).kill_requested,
        req matches ChangeWatchRequest::Add { path, config } ==> (final(state).watch_map()
            == ApiState::append_spec(old(state).watch_map(), path@, config) && r matches
            ApiResponse::Success { .. }),
        req matches ChangeWatchRequest::Remove { path } ==> (if old(state).watch_map().contains_key(
            path@,
        ) {
            final(state).watch_map() == old(state).watch_map().remove(path@) && r matches
                ApiResponse::Success { .. }
        } else {
            *final(state) == *old(state) && (r matches ApiResponse::Failed { message } && message@
                == "specified path is not in watch list"@)
        }),
{
    match req {
        ChangeWatchRequest::Add { path, config } => {
            state.append_watch_dir(path, config);
            ApiResponse::Success { data: () }
        },
        ChangeWatchRequest::Remove { path } => {
            match state.remove_watch_dir(&path) {
                Some(_) => ApiResponse::Success { data: () },
                None => ApiResponse::Failed {
                    message: "specified path is not in watch list".to_owned(),
                },
            }
        },
    }
}

/// API endpoint to kill the daemon: records the shutdown request and
/// leaves the watch list untouched, so the caller can persist it and
/// wind the server down.
pub fn kill(state: &mut ApiState) -> (r: ApiResponse<()>)
    ensures
        final(state).paths == old(state).paths,
        final(state).kill_requested,
        r matches ApiResponse::Success { .. },
{
    state.kill_requested = true;
    ApiResponse::Success { data: () }
}

/// The client's reading of a response envelope: the payload of a
/// success, the message of a failure as the error.
pub fn response_into_result<T>(r: ApiResponse<T>) -> (res: Result<T, String>)
    ensures
        r matches ApiResponse::Success { data } ==> (res matches Ok(d) && d == data),
        r matches ApiResponse::Failed { message } ==> (res matches Err(m) && m == message),
{
    match r {
        ApiResponse::Success { data } => Ok(data),
        ApiResponse::Failed { message } => Err(message),
    }
}

/// Replaying the first `j` tiers of one persisted entry onto the map.
pub open spec fn replay_entry_map(
    m: Map<Seq<u8>, Seq<Config>>,
    k: Seq<u8>,
    cfgs: Seq<Config>,
    j: int,
) -> Map<Seq<u8>, Seq<Config>>
    decreases j,
{
    if j <= 0 {
        m
    } else {
        ApiState::append_spec(replay_entry_map(m, k, cfgs, j - 1), k, cfgs[j - 1])
    }
}

/// Replaying the first `e` persisted entries onto the map.
pub open spec fn replay_file_map(
    m: Map<Seq<u8>, Seq<Config>>,
    entries: Seq<(Vec<u8>, WatchListFileEntry)>,
    e: int,
) -> Map<Seq<u8>, Seq<Config>>
    decreases e,
{
    if e <= 0 {
        m
    } else {
        let prev = replay_file_map(m, entries, e - 1);
        replay_entry_map(
            prev,
            entries[e - 1].0@,
            entries[e - 1].1.configs@,
            entries[e - 1].1.configs@.len() as int,
        )
    }
}

/// In an ascending list every earlier delay is smaller.
pub proof fn lemma_ascending_monotone(cfgs: Seq<Config>, a: int, b: int)
    requires
        delays_ascending(cfgs),
        0 <= a < b < cfgs.len(),
    ensures
        cfgs[a].delay < cfgs[b].delay,
    decreases b - a,
{
    if a + 1 < b {
        lemma_ascending_monotone(cfgs, a, b - 1);
    }
}

/// Inserting a tier later than every present tier appends it.
pub proof fn lemma_insert_config_append(cfgs: Seq<Config>, c: Config)
    requires
        forall|k: int| 0 <= k < cfgs.len() ==> (#[trigger] cfgs[k]).delay < c.delay,
    ensures
        insert_config(cfgs, c) == cfgs.push(c),
{
    lemma_first_geq(cfgs, c.delay);
    let p = first_geq(cfgs, c.delay);
    assert(p == cfgs.len() as int) by {
        if p < cfgs.len() {
            assert(cfgs[p].delay < c.delay);
        }
    }
    assert(insert_config(cfgs, c) =~= cfgs.push(c));
}

/// Replaying one entry's ascending tiers onto a map where its key is
/// fresh installs exactly those tiers.
pub proof fn lemma_replay_entry_fresh(
    m: Map<Seq<u8>, Seq<Config>>,
    k: Seq<u8>,
    cfgs: Seq<Config>,
    j: int,
)
    requires
        !m.contains_key(k),
        delays_ascending(cfgs),
        1 <= j <= cfgs.len(),
    ensures
        replay_entry_map(m, k, cfgs, j) == m.insert(k, cfgs.take(j)),
    decreases j,
{
    if j == 1 {
        assert(replay_entry_map(m, k, cfgs, 0) == m);
        assert(seq![cfgs[0]] =~= cfgs.take(1));
    } else {
        lemma_replay_entry_fresh(m, k, cfgs, j - 1);
        let prefix = cfgs.take(j - 1);
        assert forall|a: int| 0 <= a < prefix.len() implies (#[trigger] prefix[a]).delay
            < cfgs[j - 1].delay by {
            lemma_ascending_monotone(cfgs, a, j - 1);
        }
        lemma_insert_config_append(prefix, cfgs[j - 1]);
        assert(prefix.push(cfgs[j - 1]) =~= cfgs.take(j));
        assert(m.insert(k, prefix).insert(k, cfgs.take(j)) =~= m.insert(k, cfgs.take(j)));
    }
}

/// Replaying a file whose pairs mirror a well-formed state, key for
/// key and tier for tier, rebuilds exactly that state's map: the
/// persisted watch list survives the round trip through the file.
pub proof fn lemma_file_round_trip(
    s: Seq<(Vec<u8>, WatchListEntry)>,
    entries: Seq<(Vec<u8>, WatchListFileEntry)>,
    e: int,
)
    requires
        keys_distinct(s),
        forall|i: int|
            0 <= i < s.len() ==> delays_ascending((#[trigger] s[i]).1.configs@)
                && s[i].1.configs@.len() >= 1,
        entries.len() == s.len(),
        forall|i: int|
            0 <= i < s.len() ==> (#[trigger] entries[i]).0@ == s[i].0@ && entries[i].1.configs@
                == s[i].1.configs@,
        0 <= e <= s.len(),
    ensures
        replay_file_map(Map::<Seq<u8>, Seq<Config>>::empty(), entries, e) == map_of(s.take(e)),
    decreases e,
{
    if e > 0 {
        lemma_file_round_trip(s, entries, e - 1);
        let prev = map_of(s.take(e - 1));
        let k = s[e - 1].0@;
        let cfgs = s[e - 1].1.configs@;
        assert(!prev.contains_key(k)) by {
            lemma_map_of_contains(s.take(e - 1), k);
            if prev.contains_key(k) {
                let i = choose|i: int|
                    0 <= i < s.take(e - 1).len() && (#[trigger] s.take(e - 1)[i]).0@ == k;
                assert(s[i].0@ == s[e - 1].0@);
            }
        }
        lemma_replay_entry_fresh(prev, k, cfgs, cfgs.len() as int);
        assert(cfgs.take(cfgs.len() as int) =~= cfgs);
        assert(s.take(e).drop_last() =~= s.take(e - 1));
        assert(s.take(e).last() == s[e - 1]);
    }
}

impl ApiState {
    /// The state in its on-disk form: the same pairs, entry by entry.
    pub fn to_file(&self) -> (r: WatchListFile)
        ensures
            r.paths@.len() == self.paths@.len(),
            forall|i: int|
                0 <= i < self.paths@.len() ==> (#[trigger] r.paths@[i]).0@ == self.paths@[i].0@
                    && r.paths@[i].1.configs@ == self.paths@[i].1.configs@,
    {
        let mut out: Vec<(Vec<u8>, WatchListFileEntry)> = Vec::new();
        let mut i: usize = 0;
        while i < self.paths.len()
            invariant
                i <= self.paths@.len(),
                out@.len() == i,
                forall|j: int|
                    0 <= j < i ==> (#[trigger] out@[j]).0@ == self.paths@[j].0@
                        && out@[j].1.configs@ == self.paths@[j].1.configs@,
            decreases self.paths@.len() - i,
        {
            let key = clone_bytes(&self.paths[i].0);
            let configs = clone_configs(&self.paths[i].1.configs);
            out.push((key, WatchListFileEntry { configs }));
            i += 1;
        }
        WatchListFile { paths: out }
    }

    /// Rebuild the state by replaying a persisted watch list: every
    /// tier of every entry is appended in file order, so the result is
    /// well-formed whatever the file holds.
    pub fn from_file(file: &WatchListFile) -> (r: ApiState)
        ensures
            r.wf(),
            !r.kill_requested,
            r.watch_map() == replay_file_map(
                Map::<Seq<u8>, Seq<Config>>::empty(),
                file.paths@,
                file.paths@.len() as int,
            ),
    {
        let ghost entries = file.paths@;
        let mut st = ApiState::new();
        let mut e: usize = 0;
        while e < file.paths.len()
            invariant
                e <= entries.len(),
                entries == file.paths@,
                st.wf(),
                !st.kill_requested,
                st.watch_map() == replay_file_map(
                    Map::<Seq<u8>, Seq<Config>>::empty(),
                    entries,
                    e as int,
                ),
            decreases entries.len() - e,
        {
            let ghost prev = st.watch_map();
            let ghost k = entries[e as int].0@;
            let ghost cfgs = entries[e as int].1.configs@;
            let mut j: usize = 0;
            while j < file.paths[e].1.configs.len()
                invariant
                    e < entries.len(),
                    entries == file.paths@,
                    j <= cfgs.len(),
                    k == entries[e as int].0@,
                    cfgs == entries[e as int].1.configs@,
                    st.wf(),
                    !st.kill_requested,
                    st.watch_map() == replay_entry_map(prev, k, cfgs, j as int),
                decreases cfgs.len() - j,
            {
                let path = clone_bytes(&file.paths[e].0);
                let config = file.paths[e].1.configs[j].clone();
                proof {
                    assert(config == cfgs[j as int]);
                }
                st.append_watch_dir(path, config);
                j += 1;
            }
            e += 1;
        }
        st
    }
}

} // verus!
