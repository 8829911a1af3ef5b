use vstd::prelude::*;

use crate::codec::ListenerItem;
use crate::key::{ConfigKey, KeyModel};
use crate::store::{live_fp, EntryModel};

verus! {

/// Model of a watch item: a key and the fingerprint its client last saw.
pub type ItemModel = (KeyModel, Seq<char>);

/// Model of a pending watch: id, items, deadline.
pub type WatchModel = (u64, Seq<ItemModel>, i64);

/// Model of a resolution: the watch id and the keys found changed.
pub type ResolutionModel = (u64, Seq<KeyModel>);

/// The keys of the items whose fingerprint differs from the store's, in the
/// items' order.
pub open spec fn stale_keys(items: Seq<ItemModel>, m: Map<KeyModel, EntryModel>) -> Seq<KeyModel>
    decreases items.len(),
{
    if items.len() == 0 {
        Seq::empty()
    } else {
        let p = stale_keys(items.drop_last(), m);
        let it = items.last();
        if it.1 != live_fp(m, it.0) {
            p.push(it.0)
        } else {
            p
        }
    }
}

/// A watch none of whose items has changed.
pub open spec fn fresh(items: Seq<ItemModel>, m: Map<KeyModel, EntryModel>) -> bool {
    forall|i: int| 0 <= i < items.len() ==> #[trigger] items[i].1 == live_fp(m, items[i].0)
}

/// The watches that stay pending against store `m`, in order.
pub open spec fn kept(ws: Seq<WatchModel>, m: Map<KeyModel, EntryModel>) -> Seq<WatchModel>
    decreases ws.len(),
{
    if ws.len() == 0 {
        Seq::empty()
    } else {
        let p = kept(ws.drop_last(), m);
        if stale_keys(ws.last().1, m).len() == 0 {
            p.push(ws.last())
        } else {
            p
        }
    }
}

/// The watches released against store `m`, each with its changed keys.
pub open spec fn fired(ws: Seq<WatchModel>, m: Map<KeyModel, EntryModel>) -> Seq<ResolutionModel>
    decreases ws.len(),
{
    if ws.len() == 0 {
        Seq::empty()
    } else {
        let p = fired(ws.drop_last(), m);
        if stale_keys(ws.last().1, m).len() == 0 {
            p
        } else {
            p.push((ws.last().0, stale_keys(ws.last().1, m)))
        }
    }
}

pub open spec fn ids_distinct(ws: Seq<WatchModel>) -> bool {
    forall|i: int, j: int| 0 <= i < j < ws.len() ==> ws[i].0 != ws[j].0
}

pub open spec fn has_id(ws: Seq<WatchModel>, id: u64) -> bool {
    exists|i: int| 0 <= i < ws.len() && ws[i].0 == id
}

/// A watch held until one of its keys changes or its deadline passes.
pub struct PendingWatch {
    pub id: u64,
    pub items: Vec<ListenerItem>,
    pub deadline: i64,
}

impl View for PendingWatch {
    type V = WatchModel;

    open spec fn view(&self) -> WatchModel {
        (self.id, self.items@.map_values(|i: ListenerItem| i@), self.deadline)
    }
}

/// A released watch and the keys found changed.
pub struct Resolution {
    pub id: u64,
    pub changed: Vec<ConfigKey>,
}

impl View for Resolution {
    type V = ResolutionModel;

    open spec fn view(&self) -> ResolutionModel {
        (self.id, self.changed@.map_values(|k: ConfigKey| k@))
    }
}

pub proof fn lemma_stale_empty(items: Seq<ItemModel>, m: Map<KeyModel, EntryModel>)
    ensures
        (stale_keys(items, m).len() == 0) == fresh(items, m),
    decreases items.len(),
{
    if items.len() > 0 {
        let p = items.drop_last();
        lemma_stale_empty(p, m);
        if fresh(items, m) {
            assert forall|i: int| 0 <= i < p.len() implies #[trigger] p[i].1 == live_fp(m, p[i].0) by {
                assert(p[i] == items[i]);
            }
            assert(items[items.len() - 1] == items.last());
        }
        if stale_keys(items, m).len() == 0 {
            assert forall|i: int| 0 <= i < items.len() implies #[trigger] items[i].1 == live_fp(
                m,
                items[i].0,
            ) by {
                if i < p.len() {
                    assert(p[i] == items[i]);
                }
            }
        }
    }
}

pub proof fn lemma_stale_has(items: Seq<ItemModel>, m: Map<KeyModel, EntryModel>, i: int)
    requires
        0 <= i < items.len(),
        items[i].1 != live_fp(m, items[i].0),
    ensures
        stale_keys(items, m).contains(items[i].0),
    decreases items.len(),
{
    let p = items.drop_last();
    if i == items.len() - 1 {
        assert(stale_keys(items, m).last() == items[i].0);
    } else {
        assert(p[i] == items[i]);
        lemma_stale_has(p, m, i);
        let j = choose|j: int| 0 <= j < stale_keys(p, m).len() && stale_keys(p, m)[j] == items[i].0;
        assert(stale_keys(items, m)[j] == items[i].0);
    }
}

/// What stays pending and what is released come from the watches given:
/// each kept watch is one of them and fresh, each release names one of
/// them; with distinct ids, no id is released twice or both released and
/// kept.
pub proof fn lemma_split_watches(ws: Seq<WatchModel>, m: Map<KeyModel, EntryModel>)
    ensures
        forall|j: int| 0 <= j < kept(ws, m).len() ==> exists|i: int|
            0 <= i < ws.len() && ws[i] == #[trigger] kept(ws, m)[j],
        forall|j: int| 0 <= j < kept(ws, m).len() ==> fresh(#[trigger] kept(ws, m)[j].1, m),
        forall|j: int| 0 <= j < fired(ws, m).len() ==> has_id(ws, #[trigger] fired(ws, m)[j].0),
        forall|j: int| 0 <= j < fired(ws, m).len() ==> #[trigger] fired(ws, m)[j].1.len() > 0,
        ids_distinct(ws) ==> ids_distinct(kept(ws, m)),
        ids_distinct(ws) ==> forall|a: int, b: int|
            0 <= a < b < fired(ws, m).len() ==> fired(ws, m)[a].0 != fired(ws, m)[b].0,
        ids_distinct(ws) ==> forall|a: int, b: int|
            0 <= a < fired(ws, m).len() && 0 <= b < kept(ws, m).len() ==> fired(ws, m)[a].0
                != kept(ws, m)[b].0,
    decreases ws.len(),
{
    if ws.len() > 0 {
        let p = ws.drop_last();
        lemma_split_watches(p, m);
        let w = ws.last();
        lemma_stale_empty(w.1, m);
        assert forall|j: int| 0 <= j < kept(ws, m).len() implies exists|i: int|
            0 <= i < ws.len() && ws[i] == #[trigger] kept(ws, m)[j] by {
            if j < kept(p, m).len() {
                let i = choose|i: int| 0 <= i < p.len() && p[i] == kept(p, m)[j];
                assert(ws[i] == p[i]);
            } else {
                assert(ws[ws.len() - 1] == w);
            }
        }
        assert forall|j: int| 0 <= j < fired(ws, m).len() implies has_id(
            ws,
            #[trigger] fired(ws, m)[j].0,
        ) by {
            if j < fired(p, m).len() {
                let i = choose|i: int| 0 <= i < p.len() && p[i].0 == fired(p, m)[j].0;
                assert(ws[i] == p[i]);
            } else {
                assert(ws[ws.len() - 1] == w);
            }
        }
        if ids_distinct(ws) {
            assert(ids_distinct(p)) by {
                assert forall|i: int, j: int| 0 <= i < j < p.len() implies p[i].0 != p[j].0 by {
                    assert(p[i] == ws[i] && p[j] == ws[j]);
                }
            }
            assert(!has_id(p, w.0)) by {
                if has_id(p, w.0) {
                    let i = choose|i: int| 0 <= i < p.len() && p[i].0 == w.0;
                    assert(ws[i] == p[i]);
                    assert(ws[ws.len() - 1] == w);
                }
            }
            assert forall|j: int| 0 <= j < kept(p, m).len() implies #[trigger] kept(p, m)[j].0 != w.0 by {
                let i = choose|i: int| 0 <= i < p.len() && p[i] == kept(p, m)[j];
            }
            assert forall|j: int| 0 <= j < fired(p, m).len() implies #[trigger] fired(p, m)[j].0 != w.0 by {
                let i = choose|i: int| 0 <= i < p.len() && p[i].0 == fired(p, m)[j].0;
            }
        }
    }
}

/// No change is missed: a pending watch that is fresh against the store
/// and holds an item for `k` is released, with `k` among its changed keys,
/// by any store in which `k`'s fingerprint differs from what the item saw.
pub proof fn lemma_no_miss(ws: Seq<WatchModel>, m: Map<KeyModel, EntryModel>, w: int, i: int)
    requires
        0 <= w < ws.len(),
        0 <= i < ws[w].1.len(),
        ws[w].1[i].1 != live_fp(m, ws[w].1[i].0),
    ensures
        exists|j: int|
            0 <= j < fired(ws, m).len() && fired(ws, m)[j].0 == ws[w].0 && #[trigger] fired(
                ws,
                m,
            )[j].1.contains(ws[w].1[i].0),
    decreases ws.len(),
{
    let p = ws.drop_last();
    lemma_stale_has(ws[w].1, m, i);
    if w == ws.len() - 1 {
        assert(stale_keys(ws.last().1, m).len() > 0);
        let j = fired(ws, m).len() - 1;
        assert(fired(ws, m)[j].1.contains(ws[w].1[i].0));
    } else {
        assert(p[w] == ws[w]);
        lemma_no_miss(p, m, w, i);
        let j = choose|j: int|
            0 <= j < fired(p, m).len() && fired(p, m)[j].0 == p[w].0 && #[trigger] fired(p, m)[j].1.contains(
                p[w].1[i].0,
            );
        assert(fired(ws, m)[j] == fired(p, m)[j]);
    }
}

} // verus!
