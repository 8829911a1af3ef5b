use vstd::prelude::*;

use crate::codec::ListenerItem;
use crate::key::{ConfigKey, KeyModel};
use crate::params::opt_view;
use crate::registry::{
    fired, fresh, has_id, ids_distinct, kept, lemma_split_watches, stale_keys,
    PendingWatch, Resolution, WatchModel,
};
use crate::store::{lemma_set_then_get, live_fp, md5_hex_of, set_spec, ConfigEntry, ConfigStore, EntryModel};

verus! {

/// Model of the service: the store, the pending watches in order of
/// registration, and the next watch id.
pub type ServiceModel = (Map<KeyModel, EntryModel>, Seq<WatchModel>, u64);

/// What a watch request gets back at once.
pub enum ListenReply {
    /// The watch list was empty; nothing was registered.
    Empty,
    /// Some watched keys had already changed: these, in the list's order.
    Changed(Vec<ConfigKey>),
    /// Nothing has changed and the watch does not wait.
    NoChange,
    /// The watch waits under this id.
    Pending(u64),
}

/// A write that the cluster is asked to commit.
pub enum WriteIntent {
    Publish { key: ConfigKey, content: String, config_type: Option<String> },
    Remove { key: ConfigKey },
}

/// The config store and the registry of pending watches, changed one
/// operation at a time.
pub struct ConfigService {
    store: ConfigStore,
    pending: Vec<PendingWatch>,
    next_id: u64,
}

impl View for ConfigService {
    type V = ServiceModel;

    closed spec fn view(&self) -> ServiceModel {
        (self.store@, self.pending@.map_values(|w: PendingWatch| w@), self.next_id)
    }
}

/// Keys of the items whose fingerprint differs from the store's.
fn stale_of(store: &ConfigStore, items: &Vec<ListenerItem>) -> (r: Vec<ConfigKey>)
    requires
        store.wf(),
    ensures
        r@.map_values(|k: ConfigKey| k@) == stale_keys(
            items@.map_values(|i: ListenerItem| i@),
            store@,
        ),
{
    let ghost iv = items@.map_values(|i: ListenerItem| i@);
    let mut out: Vec<ConfigKey> = Vec::new();
    let mut i: usize = 0;
    while i < items.len()
        invariant
            store.wf(),
            i <= items@.len(),
            iv == items@.map_values(|i: ListenerItem| i@),
            out@.map_values(|k: ConfigKey| k@) == stale_keys(iv.subrange(0, i as int), store@),
        decreases items@.len() - i,
    {
        let fp = store.fingerprint(&items[i].key);
        let ghost before = out@.map_values(|k: ConfigKey| k@);
        assert(iv.subrange(0, i + 1).drop_last() =~= iv.subrange(0, i as int));
        assert(iv.subrange(0, i + 1).last() == items@[i as int]@);
        if !(items[i].md5 == fp) {
            let k = items[i].key.copy();
            out.push(k);
            assert(out@.map_values(|k: ConfigKey| k@) =~= before.push(k@));
        }
        i = i + 1;
    }
    assert(iv.subrange(0, iv.len() as int) =~= iv);
    out
}

impl ConfigService {
    pub closed spec fn wf(&self) -> bool {
        let pv = self.pending@.map_values(|w: PendingWatch| w@);
        &&& self.store.wf()
        &&& ids_distinct(pv)
        &&& forall|i: int|
            0 <= i < pv.len() ==> #[trigger] pv[i].0 < self.next_id && fresh(pv[i].1, self.store@)
                && pv[i].1.len() > 0
    }

    /// An empty store with no pending watches.
    pub fn new() -> (r: ConfigService)
        ensures
            r.wf(),
            r@.0 == Map::<KeyModel, EntryModel>::empty(),
            r@.1 == Seq::<WatchModel>::empty(),
    {
        let r = ConfigService { store: ConfigStore::new(), pending: Vec::new(), next_id: 0 };
        assert(r.pending@.map_values(|w: PendingWatch| w@) =~= Seq::<WatchModel>::empty());
        r
    }

    /// The entry of a key, if it has one.
    pub fn get(&self, k: &ConfigKey) -> (r: Option<ConfigEntry>)
        requires
            self.wf(),
        ensures
            r is Some <==> self@.0.contains_key(k@),
            r matches Some(e) ==> e.key@ == k@ && e.data() == self@.0[k@],
    {
        self.store.get(k)
    }

    /// Releases every pending watch that has a changed item.
    fn dispatch(&mut self) -> (r: Vec<Resolution>)
        requires
            old(self).store.wf(),
            ids_distinct(old(self)@.1),
            forall|i: int|
                0 <= i < old(self)@.1.len() ==> #[trigger] old(self)@.1[i].0 < old(self).next_id
                    && old(self)@.1[i].1.len() > 0,
        ensures
            final(self).wf(),
            final(self)@.0 == old(self)@.0,
            final(self)@.2 == old(self)@.2,
            final(self)@.1 == kept(old(self)@.1, old(self)@.0),
            r@.map_values(|x: Resolution| x@) == fired(old(self)@.1, old(self)@.0),
    {
        let ghost m = self.store@;
        let ghost orig = self@.1;
        let mut rest: Vec<PendingWatch> = Vec::new();
        std::mem::swap(&mut rest, &mut self.pending);
        let mut out: Vec<Resolution> = Vec::new();
        assert(self.pending@.map_values(|w: PendingWatch| w@) =~= kept(orig.subrange(0, 0), m));
        assert(out@.map_values(|x: Resolution| x@) =~= fired(orig.subrange(0, 0), m));
        assert(rest@.map_values(|w: PendingWatch| w@) =~= orig.subrange(0, orig.len() as int));
        while rest.len() > 0
            invariant
                self.store.wf(),
                self.store@ == m,
                self.next_id == old(self).next_id,
                orig == old(self)@.1,
                rest@.len() <= orig.len(),
                rest@.map_values(|w: PendingWatch| w@) == orig.subrange(
                    orig.len() - rest@.len(),
                    orig.len() as int,
                ),
                self.pending@.map_values(|w: PendingWatch| w@) == kept(
                    orig.subrange(0, orig.len() - rest@.len()),
                    m,
                ),
                out@.map_values(|x: Resolution| x@) == fired(
                    orig.subrange(0, orig.len() - rest@.len()),
                    m,
                ),
            decreases rest@.len(),
        {
            let ghost d = orig.len() - rest@.len();
            let ghost rv = rest@.map_values(|w: PendingWatch| w@);
            let w = rest.remove(0);
            assert(w@ == rv[0]);
            assert(w@ == orig[d]);
            assert forall|j: int| 0 <= j < rest@.len() implies #[trigger] rest@[j]@ == orig[d + 1 + j] by {
                assert(rest@[j]@ == rv[j + 1]);
            }
            assert(rest@.map_values(|w: PendingWatch| w@) =~= orig.subrange(d + 1, orig.len() as int));
            let ghost pre = orig.subrange(0, d + 1);
            assert(pre.drop_last() =~= orig.subrange(0, d));
            assert(pre.last() == w@);
            let stale = stale_of(&self.store, &w.items);
            if stale.len() == 0 {
                let ghost before = self.pending@.map_values(|w: PendingWatch| w@);
                self.pending.push(w);
                assert(self.pending@.map_values(|w: PendingWatch| w@) =~= before.push(w@));
            } else {
                let ghost before = out@.map_values(|x: Resolution| x@);
                let res = Resolution { id: w.id, changed: stale };
                out.push(res);
                assert(out@.map_values(|x: Resolution| x@) =~= before.push(res@));
            }
        }
        assert(orig.subrange(0, orig.len() as int) =~= orig);
        proof {
            lemma_split_watches(orig, m);
            let pv = self.pending@.map_values(|w: PendingWatch| w@);
            assert forall|i: int| 0 <= i < pv.len() implies #[trigger] pv[i].0 < self.next_id && fresh(
                pv[i].1,
                self.store@,
            ) && pv[i].1.len() > 0 by {
                let j = choose|j: int| 0 <= j < orig.len() && orig[j] == #[trigger] kept(orig, m)[i];
            }
        }
        out
    }

    /// Writes `content` under `k`, then releases the watches that the write
    /// changed.
    pub fn publish(&mut self, k: &ConfigKey, content: &str, config_type: &Option<String>) -> (r: Vec<
        Resolution,
    >)
        requires
            old(self).wf(),
        ensures
            final(self).wf(),
            final(self)@.0 == set_spec(old(self)@.0, k@, content@, opt_view(*config_type)),
            final(self)@.1 == kept(old(self)@.1, final(self)@.0),
            final(self)@.2 == old(self)@.2,
            r@.map_values(|x: Resolution| x@) == fired(old(self)@.1, final(self)@.0),
    {
        self.store.set(k, content, config_type);
        self.dispatch()
    }

    /// Deletes the entry of `k`, then releases the watches that the delete
    /// changed. The flag is true when there was an entry.
    pub fn remove(&mut self, k: &ConfigKey) -> (r: (bool, Vec<Resolution>))
        requires
            old(self).wf(),
        ensures
            final(self).wf(),
            r.0 == old(self)@.0.contains_key(k@),
            final(self)@.0 == old(self)@.0.remove(k@),
            final(self)@.1 == kept(old(self)@.1, final(self)@.0),
            final(self)@.2 == old(self)@.2,
            r.1@.map_values(|x: Resolution| x@) == fired(old(self)@.1, final(self)@.0),
    {
        let found = self.store.delete(k);
        let res = self.dispatch();
        (found, res)
    }

    /// Takes a watch request. An empty list is refused and nothing is
    /// registered. Keys already changed are answered at once; with nothing
    /// changed, a deadline not after `now` answers "no change" at once;
    /// otherwise the watch is registered under a fresh id. (When the ids are
    /// used up the watch is answered "no change" at once.)
    pub fn listen(&mut self, items: Vec<ListenerItem>, deadline: i64, now: i64) -> (r: ListenReply)
        requires
            old(self).wf(),
        ensures
            final(self).wf(),
            ({
                let iv = items@.map_values(|i: ListenerItem| i@);
                let stale = stale_keys(iv, old(self)@.0);
                let waits = iv.len() > 0 && stale.len() == 0 && deadline > now && old(self)@.2
                    < u64::MAX;
                &&& iv.len() == 0 ==> r is Empty
                &&& (iv.len() > 0 && stale.len() > 0) ==> (r matches ListenReply::Changed(ks)
                    && ks@.map_values(|k: ConfigKey| k@) == stale)
                &&& (iv.len() > 0 && stale.len() == 0 && !waits) ==> r is NoChange
                &&& waits ==> r == ListenReply::Pending(old(self)@.2) && final(self)@ == (
                    old(self)@.0,
                    old(self)@.1.push((old(self)@.2, iv, deadline)),
                    (old(self)@.2 + 1) as u64,
                ) && !has_id(old(self)@.1, old(self)@.2)
                &&& !waits ==> final(self)@ == old(self)@
            }),
    {
        if items.len() == 0 {
            return ListenReply::Empty;
        }
        let stale = stale_of(&self.store, &items);
        if stale.len() > 0 {
            return ListenReply::Changed(stale);
        }
        if deadline <= now || self.next_id == u64::MAX {
            return ListenReply::NoChange;
        }
        let id = self.next_id;
        let ghost iv = items@.map_values(|i: ListenerItem| i@);
        proof {
            crate::registry::lemma_stale_empty(iv, self.store@);
        }
        let ghost before = self@.1;
        let w = PendingWatch { id, items, deadline };
        self.pending.push(w);
        self.next_id = id + 1;
        assert(self@.1 =~= before.push((id, iv, deadline)));
        assert(!has_id(before, id));
        proof {
            let pv = self@.1;
            assert forall|i: int, j: int| 0 <= i < j < pv.len() implies pv[i].0 != pv[j].0 by {
                if j < before.len() {
                    assert(pv[i] == before[i] && pv[j] == before[j]);
                } else {
                    assert(pv[i] == before[i]);
                }
            }
            assert forall|i: int| 0 <= i < pv.len() implies #[trigger] pv[i].0 < self.next_id && fresh(
                pv[i].1,
                self.store@,
            ) && pv[i].1.len() > 0 by {
                if i < before.len() {
                    assert(pv[i] == before[i]);
                }
            }
        }
        ListenReply::Pending(id)
    }

    /// Releases watch `id` with "no change" when its deadline has passed and
    /// it is still pending; true exactly when it was pending.
    pub fn on_deadline(&mut self, id: u64) -> (r: bool)
        requires
            old(self).wf(),
        ensures
            final(self).wf(),
            r == has_id(old(self)@.1, id),
            !has_id(final(self)@.1, id),
            final(self)@.0 == old(self)@.0,
            final(self)@.2 == old(self)@.2,
            r ==> exists|i: int|
                0 <= i < old(self)@.1.len() && old(self)@.1[i].0 == id && final(self)@.1 == old(
                    self,
                )@.1.remove(i),
            !r ==> final(self)@.1 == old(self)@.1,
    {
        let ghost before = self@.1;
        let mut i: usize = 0;
        while i < self.pending.len()
            invariant
                self.wf(),
                self@ == old(self)@,
                self@.1 == before,
                i <= before.len(),
                forall|j: int| 0 <= j < i ==> before[j].0 != id,
            decreases before.len() - i,
        {
            assert(self.pending@[i as int]@ == before[i as int]);
            if self.pending[i].id == id {
                self.pending.remove(i);
                assert(self@.1 =~= before.remove(i as int));
                proof {
                    let pv = self@.1;
                    assert forall|a: int, b: int| 0 <= a < b < pv.len() implies pv[a].0 != pv[b].0 by {
                        let a2 = if a < i { a } else { a + 1 };
                        let b2 = if b < i { b } else { b + 1 };
                        assert(pv[a] == before[a2] && pv[b] == before[b2]);
                    }
                    assert forall|a: int| 0 <= a < pv.len() implies #[trigger] pv[a].0 < self.next_id
                        && fresh(pv[a].1, self.store@) && pv[a].1.len() > 0 by {
                        let a2 = if a < i { a } else { a + 1 };
                        assert(pv[a] == before[a2]);
                    }
                    assert(!has_id(pv, id)) by {
                        if has_id(pv, id) {
                            let a = choose|a: int| 0 <= a < pv.len() && pv[a].0 == id;
                            let a2 = if a < i { a } else { a + 1 };
                            assert(pv[a] == before[a2]);
                        }
                    }
                }
                return true;
            }
            i = i + 1;
        }
        false
    }

    /// Applies a write once the cluster has answered: on a commit the store
    /// changes and the watches it changed are released; on a refusal the
    /// refusal is returned and nothing changes.
    pub fn apply_committed(&mut self, intent: &WriteIntent, commit: Result<(), String>) -> (r:
        Result<Vec<Resolution>, String>)
        requires
            old(self).wf(),
        ensures
            final(self).wf(),
            commit matches Err(e) ==> r == Err::<Vec<Resolution>, String>(e) && final(self)@ == old(
                self,
            )@,
            commit is Ok ==> r is Ok,
            commit is Ok ==> final(self)@.0 == (match intent {
                WriteIntent::Publish { key, content, config_type } => set_spec(
                    old(self)@.0,
                    key@,
                    content@,
                    opt_view(*config_type),
                ),
                WriteIntent::Remove { key } => old(self)@.0.remove(key@),
            }),
            commit is Ok ==> final(self)@.1 == kept(old(self)@.1, final(self)@.0),
            r matches Ok(res) ==> res@.map_values(|x: Resolution| x@) == fired(
                old(self)@.1,
                final(self)@.0,
            ),
    {
        match commit {
            Err(e) => Err(e),
            Ok(()) => match intent {
                WriteIntent::Publish { key, content, config_type } => Ok(
                    self.publish(key, content.as_str(), config_type),
                ),
                WriteIntent::Remove { key } => Ok(self.remove(key).1),
            },
        }
    }
}

/// Every pending watch is fresh against the store, ids are distinct, and
/// every pending id is below the next id. A change that happened before a
/// watch was registered was answered at registration, so none waits on a
/// change it missed; and since new ids are never below the next id, which
/// never decreases, a released id is never pending again.
pub proof fn lemma_pending_fresh(s: &ConfigService)
    requires
        s.wf(),
    ensures
        ids_distinct(s@.1),
        forall|i: int| 0 <= i < s@.1.len() ==> fresh(#[trigger] s@.1[i].1, s@.0),
        forall|i: int| 0 <= i < s@.1.len() ==> #[trigger] s@.1[i].0 < s@.2,
{
    assert forall|i: int| 0 <= i < s@.1.len() implies fresh(#[trigger] s@.1[i].1, s@.0) && s@.1[i].0 < s@.2 by {
        assert(s.pending@.map_values(|w: PendingWatch| w@)[i].0 < s.next_id);
    }
}

/// No missed change: when a write gives key `k` a fingerprint that a
/// pending watch on `k` has not seen, that watch is released by the write
/// with `k` among its changed keys.
pub proof fn lemma_write_wakes_watch(
    s: &ConfigService,
    k: KeyModel,
    content: Seq<char>,
    config_type: Option<Seq<char>>,
    w: int,
    i: int,
)
    requires
        s.wf(),
        0 <= w < s@.1.len(),
        0 <= i < s@.1[w].1.len(),
        s@.1[w].1[i].0 == k,
        md5_hex_of(content) != s@.1[w].1[i].1,
    ensures
        exists|j: int|
            0 <= j < fired(s@.1, set_spec(s@.0, k, content, config_type)).len() && fired(
                s@.1,
                set_spec(s@.0, k, content, config_type),
            )[j].0 == s@.1[w].0 && #[trigger] fired(
                s@.1,
                set_spec(s@.0, k, content, config_type),
            )[j].1.contains(k),
{
    let m2 = set_spec(s@.0, k, content, config_type);
    lemma_set_then_get(s@.0, k, content, config_type);
    assert(live_fp(m2, k) == md5_hex_of(content));
    crate::registry::lemma_no_miss(s@.1, m2, w, i);
}

/// Exactly-once release: whatever the store becomes, no watch is released
/// twice by one step, and no released watch stays pending.
pub proof fn lemma_released_once(s: &ConfigService, m: Map<KeyModel, EntryModel>)
    requires
        s.wf(),
    ensures
        forall|a: int, b: int|
            0 <= a < b < fired(s@.1, m).len() ==> fired(s@.1, m)[a].0 != fired(s@.1, m)[b].0,
        forall|a: int|
            0 <= a < fired(s@.1, m).len() ==> !has_id(kept(s@.1, m), #[trigger] fired(s@.1, m)[a].0),
{
    lemma_pending_fresh(s);
    lemma_split_watches(s@.1, m);
    assert forall|a: int|
        0 <= a < fired(s@.1, m).len() implies !has_id(kept(s@.1, m), #[trigger] fired(s@.1, m)[a].0) by {
        if has_id(kept(s@.1, m), fired(s@.1, m)[a].0) {
            let b = choose|b: int|
                0 <= b < kept(s@.1, m).len() && kept(s@.1, m)[b].0 == fired(s@.1, m)[a].0;
        }
    }
}

} // verus!
