use vstd::prelude::*;
use vstd::string::*;

use crate::key::{normal_tenant, owned, public_tenant, ConfigKey, KeyModel};

verus! {

/// Separates the fields of one watch record.
pub open spec fn field_sep() -> char {
    '\x02'
}

/// Ends each watch record.
pub open spec fn record_sep() -> char {
    '\x01'
}

/// `s` cut at every `sep`; there is always at least one piece.
pub open spec fn split_on(s: Seq<char>, sep: char) -> Seq<Seq<char>>
    decreases s.len(),
{
    if s.len() == 0 {
        seq![Seq::empty()]
    } else {
        let prev = split_on(s.drop_last(), sep);
        if s.last() == sep {
            prev.push(Seq::empty())
        } else {
            prev.update(prev.len() - 1, prev.last().push(s.last()))
        }
    }
}

/// The records of a watch list; a final empty piece (after a trailing
/// separator) is not a record.
pub open spec fn records_of(s: Seq<char>) -> Seq<Seq<char>> {
    let r = split_on(s, record_sep());
    if r.last().len() == 0 {
        r.drop_last()
    } else {
        r
    }
}

/// A record has three fields (no tenant) or four.
pub open spec fn record_ok(rec: Seq<char>) -> bool {
    let f = split_on(rec, field_sep());
    f.len() == 3 || f.len() == 4
}

/// The watch item that a well-formed record stands for.
pub open spec fn item_of_record(rec: Seq<char>) -> (KeyModel, Seq<char>) {
    let f = split_on(rec, field_sep());
    if f.len() == 3 {
        ((f[0], f[1], Seq::empty()), f[2])
    } else {
        ((f[0], f[1], normal_tenant(f[2])), f[3])
    }
}

pub open spec fn all_records_ok(rs: Seq<Seq<char>>) -> bool {
    forall|i: int| 0 <= i < rs.len() ==> record_ok(#[trigger] rs[i])
}

/// What a watch list decodes to: one item per record, or nothing at all when
/// any record is malformed.
pub open spec fn decode_spec(s: Seq<char>) -> Seq<(KeyModel, Seq<char>)> {
    let rs = records_of(s);
    if all_records_ok(rs) {
        rs.map_values(|r: Seq<char>| item_of_record(r))
    } else {
        Seq::empty()
    }
}

/// A key on the wire: `data_id`, `group` and, when not empty, `tenant`.
pub open spec fn key_text(k: KeyModel) -> Seq<char> {
    if k.2.len() == 0 {
        k.0 + seq![field_sep()] + k.1
    } else {
        k.0 + seq![field_sep()] + k.1 + seq![field_sep()] + k.2
    }
}

/// A watch item on the wire: its key and the fingerprint last seen.
pub open spec fn item_text(it: (KeyModel, Seq<char>)) -> Seq<char> {
    key_text(it.0) + seq![field_sep()] + it.1
}

/// A watch list on the wire: each item followed by the record separator.
pub open spec fn watch_text(items: Seq<(KeyModel, Seq<char>)>) -> Seq<char>
    decreases items.len(),
{
    if items.len() == 0 {
        Seq::empty()
    } else {
        watch_text(items.drop_last()) + item_text(items.last()) + seq![record_sep()]
    }
}

/// The changed keys on the wire, before form encoding: each key followed by
/// the record separator.
pub open spec fn changed_text(keys: Seq<KeyModel>) -> Seq<char>
    decreases keys.len(),
{
    if keys.len() == 0 {
        Seq::empty()
    } else {
        changed_text(keys.drop_last()) + key_text(keys.last()) + seq![record_sep()]
    }
}

/// A field that can travel in a watch record unchanged.
pub open spec fn wire_safe(s: Seq<char>) -> bool {
    !s.contains(field_sep()) && !s.contains(record_sep())
}

/// A watch item whose wire form decodes back to itself.
pub open spec fn item_encodable(it: (KeyModel, Seq<char>)) -> bool {
    &&& wire_safe(it.0.0)
    &&& wire_safe(it.0.1)
    &&& wire_safe(it.0.2)
    &&& wire_safe(it.1)
    &&& it.0.2 != public_tenant()
}

/// One entry of a client's watch list: a key and the fingerprint the client
/// last saw for it.
#[derive(Debug, Clone)]
pub struct ListenerItem {
    pub key: ConfigKey,
    pub md5: String,
}

impl View for ListenerItem {
    type V = (KeyModel, Seq<char>);

    open spec fn view(&self) -> (KeyModel, Seq<char>) {
        (self.key@, self.md5@)
    }
}

/// Cuts `s` at every `sep`.
pub fn split_text(s: &str, sep: char) -> (r: Vec<String>)
    ensures
        r@.map_values(|p: String| p@) == split_on(s@, sep),
{
    let n = s.unicode_len();
    let mut parts: Vec<String> = Vec::new();
    let mut start: usize = 0;
    let mut i: usize = 0;
    assert(s@.subrange(0, 0) =~= Seq::<char>::empty());
    assert(parts@.map_values(|p: String| p@) =~= Seq::<Seq<char>>::empty());
    while i < n
        invariant
            n == s@.len(),
            start <= i <= n,
            split_on(s@.subrange(0, i as int), sep) == parts@.map_values(|p: String| p@).push(
                s@.subrange(start as int, i as int),
            ),
        decreases n - i,
    {
        let c = s.get_char(i);
        assert(s@.subrange(0, i + 1).drop_last() =~= s@.subrange(0, i as int));
        if c == sep {
            let part = owned(s.substring_char(start, i));
            let ghost before = parts@.map_values(|p: String| p@);
            parts.push(part);
            assert(parts@.map_values(|p: String| p@) =~= before.push(part@));
            start = i + 1;
            assert(s@.subrange(start as int, i + 1) =~= Seq::<char>::empty());
        } else {
            assert(s@.subrange(start as int, i + 1) =~= s@.subrange(start as int, i as int).push(c));
        }
        i = i + 1;
    }
    let last = owned(s.substring_char(start, n));
    let ghost before = parts@.map_values(|p: String| p@);
    parts.push(last);
    assert(parts@.map_values(|p: String| p@) =~= before.push(last@));
    assert(s@.subrange(0, n as int) =~= s@);
    parts
}

pub proof fn lemma_split_nonempty(s: Seq<char>, sep: char)
    ensures
        split_on(s, sep).len() >= 1,
    decreases s.len(),
{
    if s.len() > 0 {
        lemma_split_nonempty(s.drop_last(), sep);
    }
}

/// Decodes a watch list. An empty list, and a list with any malformed record,
/// decode to no items.
pub fn decode_listener_items(s: &str) -> (r: Vec<ListenerItem>)
    ensures
        r@.map_values(|i: ListenerItem| i@) == decode_spec(s@),
{
    let mut recs = split_text(s, '\x01');
    proof {
        lemma_split_nonempty(s@, record_sep());
    }
    let k = recs.len() - 1;
    if recs[k].as_str().is_empty() {
        recs.pop();
    }
    let ghost rs = records_of(s@);
    assert(recs@.map_values(|p: String| p@) =~= rs);
    let mut out: Vec<ListenerItem> = Vec::new();
    let mut j: usize = 0;
    while j < recs.len()
        invariant
            j <= recs@.len(),
            rs == records_of(s@),
            recs@.map_values(|p: String| p@) == rs,
            forall|x: int| 0 <= x < j ==> record_ok(#[trigger] rs[x]),
            out@.map_values(|i: ListenerItem| i@) == rs.subrange(0, j as int).map_values(
                |r: Seq<char>| item_of_record(r),
            ),
        decreases recs@.len() - j,
    {
        assert(recs@[j as int]@ == rs[j as int]);
        let f = split_text(recs[j].as_str(), '\x02');
        assert(f@.len() == split_on(rs[j as int], field_sep()).len());
        let item = if f.len() == 3 {
            assert(f@[0]@ == split_on(rs[j as int], field_sep())[0]);
            assert(f@[1]@ == split_on(rs[j as int], field_sep())[1]);
            assert(f@[2]@ == split_on(rs[j as int], field_sep())[2]);
            ListenerItem {
                key: ConfigKey { data_id: f[0].clone(), group: f[1].clone(), tenant: String::new() },
                md5: f[2].clone(),
            }
        } else if f.len() == 4 {
            assert(f@[0]@ == split_on(rs[j as int], field_sep())[0]);
            assert(f@[1]@ == split_on(rs[j as int], field_sep())[1]);
            assert(f@[2]@ == split_on(rs[j as int], field_sep())[2]);
            assert(f@[3]@ == split_on(rs[j as int], field_sep())[3]);
            ListenerItem {
                key: ConfigKey::new(f[0].as_str(), f[1].as_str(), f[2].as_str()),
                md5: f[3].clone(),
            }
        } else {
            assert(!record_ok(rs[j as int]));
            assert(!all_records_ok(rs));
            assert(decode_spec(s@) =~= Seq::<(KeyModel, Seq<char>)>::empty());
            return Vec::new();
        };
        let ghost before = out@.map_values(|i: ListenerItem| i@);
        out.push(item);
        assert(out@.map_values(|i: ListenerItem| i@) =~= before.push(item@));
        assert(rs.subrange(0, j + 1).map_values(|r: Seq<char>| item_of_record(r)) =~= rs.subrange(
            0,
            j as int,
        ).map_values(|r: Seq<char>| item_of_record(r)).push(item_of_record(rs[j as int])));
        j = j + 1;
    }
    assert(rs.subrange(0, rs.len() as int) =~= rs);
    out
}

/// Appends the wire form of a key.
fn push_key_text(out: &mut String, k: &ConfigKey)
    ensures
        final(out)@ == old(out)@ + key_text(k@),
{
    proof {
        reveal_strlit("\x02");
    }
    out.append(k.data_id.as_str());
    out.append("\x02");
    out.append(k.group.as_str());
    if !k.tenant.as_str().is_empty() {
        out.append("\x02");
        out.append(k.tenant.as_str());
    }
    assert(final(out)@ =~= old(out)@ + key_text(k@));
}

/// The changed keys as the raw response text: each key followed by the
/// record separator.
pub fn changed_keys_text(keys: &Vec<ConfigKey>) -> (r: String)
    ensures
        r@ == changed_text(keys@.map_values(|k: ConfigKey| k@)),
{
    proof {
        reveal_strlit("\x01");
    }
    let mut out = String::new();
    let mut i: usize = 0;
    while i < keys.len()
        invariant
            i <= keys@.len(),
            out@ == changed_text(keys@.subrange(0, i as int).map_values(|k: ConfigKey| k@)),
        decreases keys@.len() - i,
    {
        let ghost prev = out@;
        push_key_text(&mut out, &keys[i]);
        out.append("\x01");
        let ghost m = keys@.subrange(0, i + 1).map_values(|k: ConfigKey| k@);
        assert(m.drop_last() =~= keys@.subrange(0, i as int).map_values(|k: ConfigKey| k@));
        assert(m.last() == keys@[i as int]@);
        proof {
            reveal_strlit("\x01");
            reveal_strlit("\x02");
        }
        assert("\x01"@ =~= seq![record_sep()]);
        assert(out@ =~= changed_text(m));
        i = i + 1;
    }
    assert(keys@.subrange(0, keys@.len() as int) =~= keys@);
    out
}

/// Encodes a watch list: each item followed by the record separator.
pub fn encode_listener_items(items: &Vec<ListenerItem>) -> (r: String)
    ensures
        r@ == watch_text(items@.map_values(|i: ListenerItem| i@)),
{
    proof {
        reveal_strlit("\x01");
        reveal_strlit("\x02");
    }
    let mut out = String::new();
    let mut i: usize = 0;
    while i < items.len()
        invariant
            i <= items@.len(),
            out@ == watch_text(items@.subrange(0, i as int).map_values(|x: ListenerItem| x@)),
        decreases items@.len() - i,
    {
        push_key_text(&mut out, &items[i].key);
        out.append("\x02");
        out.append(items[i].md5.as_str());
        out.append("\x01");
        let ghost m = items@.subrange(0, i + 1).map_values(|x: ListenerItem| x@);
        assert(m.drop_last() =~= items@.subrange(0, i as int).map_values(|x: ListenerItem| x@));
        assert(m.last() == items@[i as int]@);
        proof {
            reveal_strlit("\x01");
            reveal_strlit("\x02");
        }
        assert("\x01"@ =~= seq![record_sep()]);
        assert("\x02"@ =~= seq![field_sep()]);
        assert(out@ =~= watch_text(m));
        i = i + 1;
    }
    assert(items@.subrange(0, items@.len() as int) =~= items@);
    out
}

/// The response body for a set of changed keys: each key followed by the
/// record separator, then a newline.
pub fn encode_changed_keys(keys: &Vec<ConfigKey>) -> (r: String)
    ensures
        r@ == changed_text(keys@.map_values(|k: ConfigKey| k@)) + seq!['\n'],
{
    let mut body = changed_keys_text(keys);
    proof {
        reveal_strlit("\n");
    }
    body.append("\n");
    body
}

pub proof fn lemma_split_append_plain(p: Seq<char>, b: Seq<char>, sep: char)
    requires
        !b.contains(sep),
    ensures
        split_on(p + b, sep) == split_on(p, sep).update(
            split_on(p, sep).len() - 1,
            split_on(p, sep).last() + b,
        ),
    decreases b.len(),
{
    lemma_split_nonempty(p, sep);
    if b.len() == 0 {
        assert(p + b =~= p);
        assert(split_on(p, sep).last() + b =~= split_on(p, sep).last());
        assert(split_on(p, sep).update(split_on(p, sep).len() - 1, split_on(p, sep).last())
            =~= split_on(p, sep));
    } else {
        let b2 = b.drop_last();
        assert(!b2.contains(sep)) by {
            if b2.contains(sep) {
                let k = choose|k: int| 0 <= k < b2.len() && b2[k] == sep;
                assert(b[k] == sep);
            }
        }
        lemma_split_append_plain(p, b2, sep);
        assert((p + b).drop_last() =~= p + b2);
        assert(b.last() != sep) by {
            assert(b[b.len() - 1] == b.last());
        }
        assert((p + b).last() == b.last());
        assert((split_on(p, sep).last() + b2).push(b.last()) =~= split_on(p, sep).last() + b);
        assert(split_on(p + b, sep) =~= split_on(p, sep).update(
            split_on(p, sep).len() - 1,
            split_on(p, sep).last() + b,
        ));
    }
}

pub proof fn lemma_split_after_sep(p: Seq<char>, b: Seq<char>, sep: char)
    requires
        !b.contains(sep),
    ensures
        split_on(p + seq![sep] + b, sep) == split_on(p, sep).push(b),
{
    let q = p + seq![sep];
    assert(q.drop_last() =~= p);
    assert(q.last() == sep);
    assert(split_on(q, sep) == split_on(p, sep).push(Seq::empty()));
    lemma_split_append_plain(q, b, sep);
    assert(Seq::<char>::empty() + b =~= b);
    assert(split_on(p, sep).push(Seq::empty()).update(split_on(p, sep).len() as int, b)
        =~= split_on(p, sep).push(b));
}

pub proof fn lemma_split_plain(a: Seq<char>, sep: char)
    requires
        !a.contains(sep),
    ensures
        split_on(a, sep) == seq![a],
{
    let e = Seq::<char>::empty();
    lemma_split_append_plain(e, a, sep);
    assert(e + a =~= a);
    assert(seq![e].update(0, e + a) =~= seq![a]);
}

proof fn lemma_item_fields(it: (KeyModel, Seq<char>))
    requires
        item_encodable(it),
    ensures
        !item_text(it).contains(record_sep()),
        record_ok(item_text(it)),
        item_of_record(item_text(it)) == it,
{
    let f = field_sep();
    let (d, g, t) = it.0;
    let m = it.1;
    lemma_split_plain(d, f);
    lemma_split_after_sep(d, g, f);
    if t.len() == 0 {
        lemma_split_after_sep(d + seq![f] + g, m, f);
        assert(split_on(item_text(it), f) =~= seq![d, g, m]);
    } else {
        lemma_split_after_sep(d + seq![f] + g, t, f);
        lemma_split_after_sep(d + seq![f] + g + seq![f] + t, m, f);
        assert(split_on(item_text(it), f) =~= seq![d, g, t, m]);
    }
    assert(!item_text(it).contains(record_sep())) by {
        if item_text(it).contains(record_sep()) {
            let k = choose|k: int| 0 <= k < item_text(it).len() && item_text(it)[k] == record_sep();
            if t.len() == 0 {
                assert(item_text(it) =~= d + seq![f] + g + seq![f] + m);
            } else {
                assert(item_text(it) =~= d + seq![f] + g + seq![f] + t + seq![f] + m);
            }
            if k < d.len() {
                assert(d[k] == record_sep());
            } else if k < d.len() + 1 + g.len() && k > d.len() {
                assert(g[k - d.len() - 1] == record_sep());
            } else if t.len() == 0 && k > d.len() + 1 + g.len() {
                assert(m[k - d.len() - g.len() - 2] == record_sep());
            } else if t.len() > 0 && k > d.len() + 1 + g.len() && k < d.len() + 2 + g.len() + t.len() {
                assert(t[k - d.len() - g.len() - 2] == record_sep());
            } else if t.len() > 0 && k > d.len() + 2 + g.len() + t.len() {
                assert(m[k - d.len() - g.len() - t.len() - 3] == record_sep());
            }
        }
    }
}

proof fn lemma_watch_split(items: Seq<(KeyModel, Seq<char>)>)
    requires
        forall|i: int| 0 <= i < items.len() ==> item_encodable(#[trigger] items[i]),
    ensures
        split_on(watch_text(items), record_sep()) == items.map_values(
            |x: (KeyModel, Seq<char>)| item_text(x),
        ).push(Seq::empty()),
    decreases items.len(),
{
    let r = record_sep();
    if items.len() == 0 {
        assert(items.map_values(|x: (KeyModel, Seq<char>)| item_text(x)).push(Seq::empty())
            =~= seq![Seq::<char>::empty()]);
    } else {
        let prev = items.drop_last();
        assert forall|i: int| 0 <= i < prev.len() implies item_encodable(#[trigger] prev[i]) by {
            assert(prev[i] == items[i]);
        }
        lemma_watch_split(prev);
        let x = items.last();
        assert(item_encodable(items[items.len() - 1]));
        lemma_item_fields(x);
        let w = watch_text(prev);
        lemma_split_append_plain(w, item_text(x), r);
        let q = w + item_text(x) + seq![r];
        assert(q.drop_last() =~= w + item_text(x));
        assert(items.map_values(|y: (KeyModel, Seq<char>)| item_text(y)) =~= prev.map_values(
            |y: (KeyModel, Seq<char>)| item_text(y),
        ).push(item_text(x)));
        assert(Seq::<char>::empty() + item_text(x) =~= item_text(x));
        assert(split_on(q, r) =~= items.map_values(|y: (KeyModel, Seq<char>)| item_text(y)).push(
            Seq::empty(),
        ));
    }
}

/// Round trip: a watch list written in the wire form decodes back to the
/// same keys and fingerprints, provided no field holds a separator and no
/// tenant is spelled `public`.
pub proof fn lemma_watch_round_trip(items: Seq<(KeyModel, Seq<char>)>)
    requires
        forall|i: int| 0 <= i < items.len() ==> item_encodable(#[trigger] items[i]),
    ensures
        decode_spec(watch_text(items)) == items,
{
    lemma_watch_split(items);
    let texts = items.map_values(|x: (KeyModel, Seq<char>)| item_text(x));
    let rs = records_of(watch_text(items));
    assert(texts.push(Seq::empty()).drop_last() =~= texts);
    assert(rs == texts);
    assert forall|i: int| 0 <= i < rs.len() implies record_ok(#[trigger] rs[i]) by {
        lemma_item_fields(items[i]);
    }
    assert forall|i: int| 0 <= i < items.len() implies #[trigger] item_of_record(rs[i]) == items[i] by {
        lemma_item_fields(items[i]);
    }
    assert(rs.map_values(|r: Seq<char>| item_of_record(r)) =~= items);
}

} // verus!
