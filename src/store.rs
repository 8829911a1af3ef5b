use vstd::prelude::*;

use crate::key::{owned, ConfigKey, KeyModel};
use crate::params::opt_view;

verus! {

/// Model of an entry: content, fingerprint, format hint, version.
pub type EntryModel = (Seq<char>, Seq<char>, Option<Seq<char>>, u64);

/// The MD5 digest of a text, as 32 lower-case hex digits.
pub uninterp spec fn md5_hex_of(s: Seq<char>) -> Seq<char>;

/// Relies on md5::compute and the digest's `LowerHex` form: the hex MD5 of
/// the text's bytes, a function of the text alone.
#[verifier::external_body]
fn md5_hex(s: &str) -> (r: String)
    ensures
        r@ == md5_hex_of(s@),
{
    format!("{:x}", md5::compute(s.as_bytes()))
}

/// The fingerprint a key has in a store: its entry's fingerprint, or the
/// empty text when the key has no entry.
pub open spec fn live_fp(m: Map<KeyModel, EntryModel>, k: KeyModel) -> Seq<char> {
    if m.contains_key(k) {
        m[k].1
    } else {
        Seq::empty()
    }
}

/// The version a key gets on its next write.
pub open spec fn next_version(m: Map<KeyModel, EntryModel>, k: KeyModel) -> u64 {
    if !m.contains_key(k) {
        1
    } else if m[k].3 == u64::MAX {
        u64::MAX
    } else {
        (m[k].3 + 1) as u64
    }
}

/// The store after writing `content` under `k`.
pub open spec fn set_spec(
    m: Map<KeyModel, EntryModel>,
    k: KeyModel,
    content: Seq<char>,
    config_type: Option<Seq<char>>,
) -> Map<KeyModel, EntryModel> {
    m.insert(k, (content, md5_hex_of(content), config_type, next_version(m, k)))
}

/// A live configuration item.
pub struct ConfigEntry {
    pub key: ConfigKey,
    pub content: String,
    pub md5: String,
    pub config_type: Option<String>,
    pub version: u64,
}

impl ConfigEntry {
    pub open spec fn data(&self) -> EntryModel {
        (self.content@, self.md5@, opt_view(self.config_type), self.version)
    }

    /// Copies the entry.
    pub fn copy(&self) -> (r: ConfigEntry)
        ensures
            r.key@ == self.key@,
            r.data() == self.data(),
    {
        let config_type = match &self.config_type {
            Some(t) => Some(t.clone()),
            None => None,
        };
        ConfigEntry {
            key: self.key.copy(),
            content: self.content.clone(),
            md5: self.md5.clone(),
            config_type,
            version: self.version,
        }
    }
}

/// The authoritative map from key to entry; at most one entry per key.
pub struct ConfigStore {
    entries: Vec<ConfigEntry>,
    model: Ghost<Map<KeyModel, EntryModel>>,
}

impl View for ConfigStore {
    type V = Map<KeyModel, EntryModel>;

    closed spec fn view(&self) -> Map<KeyModel, EntryModel> {
        self.model@
    }
}

impl ConfigStore {
    pub closed spec fn wf(&self) -> bool {
        &&& forall|i: int, j: int|
            0 <= i < j < self.entries@.len() ==> self.entries@[i].key@ != self.entries@[j].key@
        &&& forall|i: int|
            0 <= i < self.entries@.len() ==> self.model@.contains_key(
                #[trigger] self.entries@[i].key@,
            ) && self.model@[self.entries@[i].key@] == self.entries@[i].data()
        &&& forall|k: KeyModel|
            #[trigger] self.model@.contains_key(k) ==> exists|i: int|
                0 <= i < self.entries@.len() && self.entries@[i].key@ == k
    }

    /// An empty store.
    pub fn new() -> (r: ConfigStore)
        ensures
            r.wf(),
            r@ == Map::<KeyModel, EntryModel>::empty(),
    {
        ConfigStore { entries: Vec::new(), model: Ghost(Map::empty()) }
    }

    fn find(&self, k: &ConfigKey) -> (r: Option<usize>)
        requires
            self.wf(),
        ensures
            r matches Some(i) ==> i < self.entries@.len() && self.entries@[i as int].key@ == k@,
            r is None ==> !self@.contains_key(k@),
    {
        let mut i: usize = 0;
        while i < self.entries.len()
            invariant
                i <= self.entries@.len(),
                forall|j: int| 0 <= j < i ==> self.entries@[j].key@ != k@,
            decreases self.entries@.len() - i,
        {
            if self.entries[i].key.same(k) {
                return Some(i);
            }
            i = i + 1;
        }
        None
    }

    /// The entry of a key, if it has one.
    pub fn get(&self, k: &ConfigKey) -> (r: Option<ConfigEntry>)
        requires
            self.wf(),
        ensures
            r is Some <==> self@.contains_key(k@),
            r matches Some(e) ==> e.key@ == k@ && e.data() == self@[k@],
    {
        match self.find(k) {
            Some(i) => Some(self.entries[i].copy()),
            None => None,
        }
    }

    /// The current fingerprint of a key; empty when the key has no entry.
    pub fn fingerprint(&self, k: &ConfigKey) -> (r: String)
        requires
            self.wf(),
        ensures
            r@ == live_fp(self@, k@),
    {
        match self.find(k) {
            Some(i) => self.entries[i].md5.clone(),
            None => String::new(),
        }
    }

    /// Writes `content` under `k`: the fingerprint is recomputed and the
    /// version bumped; the entry is created if absent.
    pub fn set(&mut self, k: &ConfigKey, content: &str, config_type: &Option<String>) -> (r:
        ConfigEntry)
        requires
            old(self).wf(),
        ensures
            final(self).wf(),
            final(self)@ == set_spec(old(self)@, k@, content@, opt_view(*config_type)),
            r.key@ == k@,
            r.data() == final(self)@[k@],
    {
        let md5 = md5_hex(content);
        let ty = match config_type {
            Some(t) => Some(t.clone()),
            None => None,
        };
        let ghost m = self@;
        let ghost new_model = set_spec(m, k@, content@, opt_view(*config_type));
        match self.find(k) {
            Some(i) => {
                let v = self.entries[i].version;
                let version = if v == u64::MAX {
                    v
                } else {
                    v + 1
                };
                let e = ConfigEntry {
                    key: k.copy(),
                    content: owned(content),
                    md5,
                    config_type: ty,
                    version,
                };
                let r = e.copy();
                self.entries.set(i, e);
                self.model = Ghost(new_model);
                assert forall|k2: KeyModel| #[trigger] self.model@.contains_key(k2) implies exists|
                    j: int,
                | 0 <= j < self.entries@.len() && self.entries@[j].key@ == k2 by {
                    if k2 != k@ {
                        let j = choose|j: int| 0 <= j < old(self).entries@.len() && old(self).entries@[j].key@ == k2;
                        assert(self.entries@[j].key@ == k2);
                    } else {
                        assert(self.entries@[i as int].key@ == k2);
                    }
                }
                r
            },
            None => {
                let e = ConfigEntry {
                    key: k.copy(),
                    content: owned(content),
                    md5,
                    config_type: ty,
                    version: 1,
                };
                let r = e.copy();
                self.entries.push(e);
                self.model = Ghost(new_model);
                assert forall|k2: KeyModel| #[trigger] self.model@.contains_key(k2) implies exists|
                    j: int,
                | 0 <= j < self.entries@.len() && self.entries@[j].key@ == k2 by {
                    if k2 != k@ {
                        let j = choose|j: int| 0 <= j < old(self).entries@.len() && old(self).entries@[j].key@ == k2;
                        assert(self.entries@[j].key@ == k2);
                    } else {
                        assert(self.entries@[old(self).entries@.len() as int].key@ == k2);
                    }
                }
                r
            },
        }
    }

    /// Removes the entry of `k`; true when there was one.
    pub fn delete(&mut self, k: &ConfigKey) -> (r: bool)
        requires
            old(self).wf(),
        ensures
            final(self).wf(),
            r == old(self)@.contains_key(k@),
            final(self)@ == old(self)@.remove(k@),
    {
        match self.find(k) {
            Some(i) => {
                self.entries.remove(i);
                self.model = Ghost(self.model@.remove(k@));
                assert forall|k2: KeyModel| #[trigger] self.model@.contains_key(k2) implies exists|
                    j: int,
                | 0 <= j < self.entries@.len() && self.entries@[j].key@ == k2 by {
                    let j = choose|j: int| 0 <= j < old(self).entries@.len() && old(self).entries@[j].key@ == k2;
                    if j < i {
                        assert(self.entries@[j].key@ == k2);
                    } else {
                        assert(j != i);
                        assert(self.entries@[j - 1].key@ == k2);
                    }
                }
                true
            },
            None => {
                assert(self.model@.remove(k@) =~= self.model@);
                false
            },
        }
    }
}

/// Writing a content and reading the key back gives that content and the
/// digest of exactly that content.
pub proof fn lemma_set_then_get(
    m: Map<KeyModel, EntryModel>,
    k: KeyModel,
    content: Seq<char>,
    config_type: Option<Seq<char>>,
)
    ensures
        set_spec(m, k, content, config_type).contains_key(k),
        set_spec(m, k, content, config_type)[k].0 == content,
        set_spec(m, k, content, config_type)[k].1 == md5_hex_of(content),
        live_fp(set_spec(m, k, content, config_type), k) == md5_hex_of(content),
{
}

} // verus!
