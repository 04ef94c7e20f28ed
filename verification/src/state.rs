//! The bridge's persistent state: which pull request is linked to which Codex
//! session, and which webhook deliveries were already processed, and when.
use vstd::prelude::*;
use crate::text::text_eq;

verus! {

/// How long a processed delivery ID is remembered: three days, in seconds.
pub const DELIVERY_RETENTION_SECONDS: u64 = 259200;

/// The Codex session that a pull request is linked to.
#[derive(Debug)]
pub struct Link {
    pub thread_id: String,
    pub cwd: String,
}

/// What a link holds, as text.
pub struct LinkView {
    pub thread_id: Seq<char>,
    pub cwd: Seq<char>,
}

impl View for Link {
    type V = LinkView;

    open spec fn view(&self) -> LinkView {
        LinkView { thread_id: self.thread_id@, cwd: self.cwd@ }
    }
}

impl Clone for Link {
    fn clone(&self) -> (r: Self)
        ensures
            r@ == self@,
    {
        Link { thread_id: self.thread_id.clone(), cwd: self.cwd.clone() }
    }
}

/// The map that a list of keyed entries denotes; a later entry for a key
/// replaces an earlier one.
pub open spec fn entries_map<V>(entries: Seq<(Seq<char>, V)>) -> Map<Seq<char>, V>
    decreases entries.len(),
{
    if entries.len() == 0 {
        Map::empty()
    } else {
        entries_map(entries.drop_last()).insert(entries.last().0, entries.last().1)
    }
}

/// The texts of a list of strings.
pub open spec fn texts(v: Seq<String>) -> Seq<Seq<char>> {
    v.map_values(|s: String| s@)
}

/// The entries of a list of links, as text.
pub open spec fn link_entries(v: Seq<(String, Link)>) -> Seq<(Seq<char>, LinkView)> {
    v.map_values(|p: (String, Link)| (p.0@, p.1@))
}

/// The entries of a list of timestamps, keyed by text.
pub open spec fn stamp_entries(v: Seq<(String, u64)>) -> Seq<(Seq<char>, u64)> {
    v.map_values(|p: (String, u64)| (p.0@, p.1))
}

/// The entry at `i` is the last one for its key: the map holds its value.
pub proof fn lemma_entries_map_last<V>(entries: Seq<(Seq<char>, V)>, i: int)
    requires
        0 <= i < entries.len(),
        forall|j: int| i < j < entries.len() ==> entries[j].0 != entries[i].0,
    ensures
        entries_map(entries).contains_key(entries[i].0),
        entries_map(entries)[entries[i].0] == entries[i].1,
    decreases entries.len(),
{
    if i < entries.len() - 1 {
        let rest = entries.drop_last();
        assert forall|j: int| i < j < rest.len() implies rest[j].0 != rest[i].0 by {
            assert(rest[j] == entries[j]);
        }
        lemma_entries_map_last(rest, i);
        assert(rest[i] == entries[i]);
    }
}

/// A key that no entry names is not in the map.
pub proof fn lemma_entries_map_absent<V>(entries: Seq<(Seq<char>, V)>, key: Seq<char>)
    requires
        forall|j: int| 0 <= j < entries.len() ==> entries[j].0 != key,
    ensures
        !entries_map(entries).contains_key(key),
    decreases entries.len(),
{
    if entries.len() > 0 {
        let rest = entries.drop_last();
        assert forall|j: int| 0 <= j < rest.len() implies rest[j].0 != key by {
            assert(rest[j] == entries[j]);
        }
        lemma_entries_map_absent(rest, key);
    }
}

/// The keys of the map are the keys that the entries name.
pub proof fn lemma_entries_map_domain<V>(entries: Seq<(Seq<char>, V)>, key: Seq<char>)
    ensures
        entries_map(entries).contains_key(key) <==> exists|j: int|
            0 <= j < entries.len() && entries[j].0 == key,
    decreases entries.len(),
{
    if entries.len() > 0 {
        let rest = entries.drop_last();
        lemma_entries_map_domain(rest, key);
        if exists|j: int| 0 <= j < rest.len() && rest[j].0 == key {
            let j = choose|j: int| 0 <= j < rest.len() && rest[j].0 == key;
            assert(entries[j] == rest[j]);
        }
        if exists|j: int| 0 <= j < entries.len() && entries[j].0 == key {
            let j = choose|j: int| 0 <= j < entries.len() && entries[j].0 == key;
            if j < rest.len() {
                assert(rest[j] == entries[j]);
            }
        }
    }
}

/// Replacing the last entry for a key is inserting into the map.
pub proof fn lemma_entries_map_replace<V>(entries: Seq<(Seq<char>, V)>, i: int, value: V)
    requires
        0 <= i < entries.len(),
        forall|j: int| i < j < entries.len() ==> entries[j].0 != entries[i].0,
    ensures
        entries_map(entries.update(i, (entries[i].0, value))) == entries_map(entries).insert(
            entries[i].0,
            value,
        ),
    decreases entries.len(),
{
    let key = entries[i].0;
    let updated = entries.update(i, (key, value));
    if i == entries.len() - 1 {
        assert(updated.drop_last() == entries.drop_last());
        assert(entries_map(entries).insert(key, value) == entries_map(entries.drop_last()).insert(
            key,
            value,
        ));
    } else {
        let rest = entries.drop_last();
        assert forall|j: int| i < j < rest.len() implies rest[j].0 != rest[i].0 by {
            assert(rest[j] == entries[j]);
        }
        lemma_entries_map_replace(rest, i, value);
        assert(updated.drop_last() == rest.update(i, (key, value)));
        assert(updated.last() == entries.last());
        assert(entries.last().0 != key);
        assert(entries_map(updated) == entries_map(entries).insert(key, value));
    }
}

/// The index of the last entry whose key is `key`.
pub fn last_index_of<V>(entries: &Vec<(String, V)>, key: &str) -> (r: Option<usize>)
    ensures
        r matches Some(i) ==> {
            &&& i < entries@.len()
            &&& entries@[i as int].0@ == key@
            &&& forall|j: int| i < j < entries@.len() ==> entries@[j].0@ != key@
        },
        r is None ==> forall|j: int| 0 <= j < entries@.len() ==> entries@[j].0@ != key@,
{
    let mut i: usize = entries.len();
    while i > 0
        invariant
            i <= entries@.len(),
            forall|j: int| i <= j < entries@.len() ==> entries@[j].0@ != key@,
        decreases i,
    {
        i = i - 1;
        if text_eq(entries[i].0.as_str(), key) {
            return Some(i);
        }
    }
    None
}

/// The state as the bridge keeps it between deliveries.
#[derive(Debug)]
pub struct State {
    /// Links by pull request key (`OWNER/REPO#NUMBER`); a later entry for a key
    /// replaces an earlier one.
    pub links: Vec<(String, Link)>,
    /// The IDs of processed deliveries, in the order they were processed.
    pub deliveries: Vec<String>,
    /// When each delivery was processed, in seconds since the Unix epoch; a
    /// later entry for an ID replaces an earlier one.
    pub delivery_timestamps: Vec<(String, u64)>,
}

/// What the state holds.
pub struct StateView {
    pub links: Map<Seq<char>, LinkView>,
    pub deliveries: Seq<Seq<char>>,
    pub delivery_timestamps: Map<Seq<char>, u64>,
}

impl View for State {
    type V = StateView;

    open spec fn view(&self) -> StateView {
        StateView {
            links: entries_map(link_entries(self.links@)),
            deliveries: texts(self.deliveries@),
            delivery_timestamps: entries_map(stamp_entries(self.delivery_timestamps@)),
        }
    }
}

/// A state with no links and no deliveries.
pub open spec fn empty_state() -> StateView {
    StateView { links: Map::empty(), deliveries: Seq::empty(), delivery_timestamps: Map::empty() }
}

/// Sets `key` to `value` in a list of entries: replaces the last entry for the
/// key, or appends one.
fn set_entry<V>(entries: &mut Vec<(String, V)>, key: String, value: V)
    ensures
        ({
            ||| final(entries)@ == old(entries)@.push((key, value))
            ||| exists|k: int|
                0 <= k < old(entries)@.len() && old(entries)@[k].0@ == key@ && (forall|j: int|
                    k < j < old(entries)@.len() ==> old(entries)@[j].0@ != key@)
                    && final(entries)@ == old(entries)@.update(k, (key, value))
        }),
{
    match last_index_of(entries, key.as_str()) {
        Some(i) => {
            entries.set(i, (key, value));
        },
        None => {
            entries.push((key, value));
        },
    }
}

impl Default for State {
    fn default() -> (s: State)
        ensures
            s@ == empty_state(),
    {
        State::new()
    }
}

impl State {
    /// An empty state.
    pub fn new() -> (s: State)
        ensures
            s@ == empty_state(),
    {
        let s = State { links: Vec::new(), deliveries: Vec::new(), delivery_timestamps: Vec::new() };
        assert(s@.deliveries == Seq::<Seq<char>>::empty());
        s
    }

    /// The link of the pull request `key`, if there is one.
    pub fn link(&self, key: &str) -> (r: Option<Link>)
        ensures
            r is Some <==> self@.links.contains_key(key@),
            r matches Some(l) ==> l@ == self@.links[key@],
    {
        let ghost entries = link_entries(self.links@);
        match last_index_of(&self.links, key) {
            Some(i) => {
                assert forall|j: int| i < j < entries.len() implies entries[j].0 != entries[i as int].0 by {
                    assert(entries[j].0 == self.links@[j].0@);
                }
                proof {
                    lemma_entries_map_last(entries, i as int);
                }
                Some(self.links[i].1.clone())
            },
            None => {
                assert forall|j: int| 0 <= j < entries.len() implies entries[j].0 != key@ by {
                    assert(entries[j].0 == self.links@[j].0@);
                }
                proof {
                    lemma_entries_map_absent(entries, key@);
                }
                None
            },
        }
    }

    /// Links the pull request `key` to `link`, replacing any earlier link.
    pub fn insert_link(&mut self, key: String, link: Link)
        ensures
            final(self)@ == (StateView { links: old(self)@.links.insert(key@, link@), ..old(self)@ }),
    {
        let ghost before = self.links@;
        let ghost k = key@;
        let ghost l = link@;
        set_entry(&mut self.links, key, link);
        proof {
            let after = self.links@;
            if after == before.push((after.last().0, after.last().1)) && after.len() == before.len() + 1 {
                assert(link_entries(after).drop_last() == link_entries(before));
            } else {
                let i = choose|i: int|
                    0 <= i < before.len() && before[i].0@ == k && (forall|j: int|
                        i < j < before.len() ==> before[j].0@ != k) && after == before.update(
                        i,
                        (after[i].0, after[i].1),
                    );
                let e = link_entries(before);
                assert forall|j: int| i < j < e.len() implies e[j].0 != e[i].0 by {}
                lemma_entries_map_replace(e, i, l);
                assert(link_entries(after) == e.update(i, (e[i].0, l)));
            }
        }
    }

    /// Whether the delivery `id` is among the processed ones.
    pub fn contains_delivery(&self, id: &str) -> (r: bool)
        ensures
            r == self@.deliveries.contains(id@),
    {
        contains_text(&self.deliveries, id)
    }

    /// Records the delivery `id` as processed at `now`.
    pub fn record_delivery(&mut self, id: String, now: u64)
        ensures
            final(self)@ == (StateView {
                deliveries: old(self)@.deliveries.push(id@),
                delivery_timestamps: old(self)@.delivery_timestamps.insert(id@, now),
                ..old(self)@
            }),
    {
        let ghost before = self.delivery_timestamps@;
        let ghost old_deliveries = self.deliveries@;
        let ghost k = id@;
        self.deliveries.push(id.clone());
        assert(texts(self.deliveries@) == texts(old_deliveries).push(k));
        set_entry(&mut self.delivery_timestamps, id, now);
        proof {
            let after = self.delivery_timestamps@;
            if after == before.push((after.last().0, after.last().1)) && after.len() == before.len() + 1 {
                assert(stamp_entries(after).drop_last() == stamp_entries(before));
            } else {
                let i = choose|i: int|
                    0 <= i < before.len() && before[i].0@ == k && (forall|j: int|
                        i < j < before.len() ==> before[j].0@ != k) && after == before.update(
                        i,
                        (after[i].0, after[i].1),
                    );
                let e = stamp_entries(before);
                assert forall|j: int| i < j < e.len() implies e[j].0 != e[i].0 by {}
                lemma_entries_map_replace(e, i, now);
                assert(stamp_entries(after) == e.update(i, (e[i].0, now)));
            }
        }
    }
}

/// Whether one of `v` is the text `t`.
pub fn contains_text(v: &Vec<String>, t: &str) -> (r: bool)
    ensures
        r == texts(v@).contains(t@),
{
    let mut i: usize = 0;
    while i < v.len()
        invariant
            i <= v@.len(),
            forall|j: int| 0 <= j < i ==> v@[j]@ != t@,
        decreases v@.len() - i,
    {
        if text_eq(v[i].as_str(), t) {
            assert(texts(v@)[i as int] == t@);
            return true;
        }
        i = i + 1;
    }
    assert forall|j: int| 0 <= j < texts(v@).len() implies texts(v@)[j] != t@ by {
        assert(texts(v@)[j] == v@[j]@);
    }
    false
}

/// Whether a delivery recorded with `stamps` is still remembered at `now`: it has
/// no timestamp, or its timestamp is at most three days before `now` (a
/// timestamp after `now` counts as fresh).
pub open spec fn is_fresh(stamps: Map<Seq<char>, u64>, id: Seq<char>, now: u64) -> bool {
    !stamps.contains_key(id) || now - stamps[id] <= DELIVERY_RETENTION_SECONDS
}

/// The timestamp of `id`, or `now` where it has none.
pub open spec fn stamp_or(stamps: Map<Seq<char>, u64>, id: Seq<char>, now: u64) -> u64 {
    if stamps.contains_key(id) {
        stamps[id]
    } else {
        now
    }
}

/// The deliveries that pruning at `now` keeps, in their order.
pub open spec fn kept_deliveries(s: StateView, now: u64) -> Seq<Seq<char>> {
    s.deliveries.filter(|id: Seq<char>| is_fresh(s.delivery_timestamps, id, now))
}

/// The state after pruning at `now`: deliveries older than three days are
/// forgotten, the timestamps of forgotten deliveries are dropped, and a kept
/// delivery without a timestamp gets `now`.
pub open spec fn pruned(s: StateView, now: u64) -> StateView {
    let kept = kept_deliveries(s, now);
    StateView {
        links: s.links,
        deliveries: kept,
        delivery_timestamps: Map::new(
            |id: Seq<char>| kept.contains(id),
            |id: Seq<char>| stamp_or(s.delivery_timestamps, id, now),
        ),
    }
}

/// The timestamp that `stamps` holds for `id`.
fn stamp_of(stamps: &Vec<(String, u64)>, id: &str) -> (r: Option<u64>)
    ensures
        r is Some <==> entries_map(stamp_entries(stamps@)).contains_key(id@),
        r matches Some(t) ==> entries_map(stamp_entries(stamps@))[id@] == t,
{
    let ghost e = stamp_entries(stamps@);
    match last_index_of(stamps, id) {
        Some(i) => {
            assert forall|j: int| i < j < e.len() implies e[j].0 != e[i as int].0 by {}
            proof {
                lemma_entries_map_last(e, i as int);
            }
            Some(stamps[i].1)
        },
        None => {
            assert forall|j: int| 0 <= j < e.len() implies e[j].0 != id@ by {}
            proof {
                lemma_entries_map_absent(e, id@);
            }
            None
        },
    }
}

/// Forgets deliveries processed more than three days before `now`, gives a
/// timestamp of `now` to remembered deliveries that have none, and tells
/// whether anything changed.
pub fn prune_deliveries(state: &mut State, now: u64) -> (changed: bool)
    ensures
        final(state)@ == pruned(old(state)@, now),
        changed == (pruned(old(state)@, now) != old(state)@),
{
    let ghost s0 = state@;
    let ghost stamps = s0.delivery_timestamps;
    let ghost pred = |id: Seq<char>| is_fresh(stamps, id, now);
    let n = state.deliveries.len();
    let mut kept: Vec<String> = Vec::new();
    let mut removed = false;
    let mut i: usize = 0;
    assert(s0.deliveries.take(0) == Seq::<Seq<char>>::empty());
    reveal(Seq::filter);
    while i < n
        invariant
            n == state.deliveries@.len(),
            state@ == s0,
            stamps == s0.delivery_timestamps,
            pred == (|id: Seq<char>| is_fresh(stamps, id, now)),
            i <= n,
            texts(kept@) == s0.deliveries.take(i as int).filter(pred),
            !removed ==> texts(kept@) == s0.deliveries.take(i as int),
            removed ==> kept@.len() < i,
        decreases n - i,
    {
        let fresh = match stamp_of(&state.delivery_timestamps, state.deliveries[i].as_str()) {
            Some(t) => t >= now || now - t <= DELIVERY_RETENTION_SECONDS,
            None => true,
        };
        assert(s0.deliveries[i as int] == state.deliveries@[i as int]@);
        assert(fresh == pred(s0.deliveries[i as int]));
        assert(s0.deliveries.take(i + 1).drop_last() == s0.deliveries.take(i as int));
        let ghost old_kept = texts(kept@);
        assert(s0.deliveries.take(i + 1).last() == s0.deliveries[i as int]);
        if fresh {
            kept.push(state.deliveries[i].clone());
            assert(texts(kept@) == old_kept.push(s0.deliveries[i as int]));
        } else {
            removed = true;
        }
        proof {
            s0.deliveries.take(i as int).lemma_filter_len(pred);
        }
        let ghost d = s0.deliveries[i as int];
        let ghost t1 = s0.deliveries.take(i + 1);
        assert(t1.len() > 0);
        reveal(Seq::filter);
        assert(t1.filter(pred) == (if pred(t1.last()) {
            t1.drop_last().filter(pred).push(t1.last())
        } else {
            t1.drop_last().filter(pred)
        }));
        assert(texts(kept@) == s0.deliveries.take(i + 1).filter(pred));
        assert(!removed ==> texts(kept@) == s0.deliveries.take(i + 1));
        i = i + 1;
    }
    assert(s0.deliveries.take(n as int) == s0.deliveries);
    let ghost kept_texts = texts(kept@);
    assert(kept_texts == kept_deliveries(s0, now));
    proof {
        s0.deliveries.lemma_filter_len(pred);
    }

    let mut new_stamps: Vec<(String, u64)> = Vec::new();
    let mut added = false;
    let mut k: usize = 0;
    assert(entries_map(stamp_entries(new_stamps@)) =~= Map::new(
        |id: Seq<char>| kept_texts.take(0).contains(id),
        |id: Seq<char>| stamp_or(stamps, id, now),
    ));
    while k < kept.len()
        invariant
            state@ == s0,
            stamps == s0.delivery_timestamps,
            kept_texts == texts(kept@),
            k <= kept@.len(),
            entries_map(stamp_entries(new_stamps@)) == Map::new(
                |id: Seq<char>| kept_texts.take(k as int).contains(id),
                |id: Seq<char>| stamp_or(stamps, id, now),
            ),
            !added ==> forall|j: int| 0 <= j < k ==> stamps.contains_key(kept_texts[j]),
            added ==> exists|j: int| 0 <= j < k && !stamps.contains_key(kept_texts[j]),
        decreases kept@.len() - k,
    {
        let ghost before = new_stamps@;
        let ghost id = kept_texts[k as int];
        assert(kept@[k as int]@ == id);
        assert(kept_texts.take(k + 1) == kept_texts.take(k as int).push(id));
        match stamp_of(&new_stamps, kept[k].as_str()) {
            Some(_) => {
                assert(kept_texts.take(k as int).contains(id));
                assert(entries_map(stamp_entries(new_stamps@)) =~= Map::new(
                    |x: Seq<char>| kept_texts.take(k + 1).contains(x),
                    |x: Seq<char>| stamp_or(stamps, x, now),
                ));
            },
            None => {
                let value = match stamp_of(&state.delivery_timestamps, kept[k].as_str()) {
                    Some(t) => t,
                    None => {
                        added = true;
                        now
                    },
                };
                assert(value == stamp_or(stamps, id, now));
                new_stamps.push((kept[k].clone(), value));
                assert(stamp_entries(new_stamps@).drop_last() == stamp_entries(before));
                assert(stamp_entries(new_stamps@).last() == (id, value));
                let ghost t0 = kept_texts.take(k as int);
                let ghost t1 = kept_texts.take(k + 1);
                assert forall|x: Seq<char>| t1.contains(x) == (t0.contains(x) || x == id) by {
                    if t1.contains(x) {
                        let j = choose|j: int| 0 <= j < t1.len() && t1[j] == x;
                        if j < k {
                            assert(t0[j] == x);
                        }
                    }
                    if t0.contains(x) {
                        let j = choose|j: int| 0 <= j < t0.len() && t0[j] == x;
                        assert(t1[j] == x);
                    }
                    if x == id {
                        assert(t1[k as int] == x);
                    }
                }
                assert(entries_map(stamp_entries(new_stamps@)) =~= Map::new(
                    |x: Seq<char>| kept_texts.take(k + 1).contains(x),
                    |x: Seq<char>| stamp_or(stamps, x, now),
                ));
            },
        }
        k = k + 1;
    }
    assert(kept_texts.take(kept@.len() as int) == kept_texts);

    let mut dropped = false;
    let mut m: usize = 0;
    let ghost old_entries = stamp_entries(state.delivery_timestamps@);
    while m < state.delivery_timestamps.len()
        invariant
            state@ == s0,
            old_entries == stamp_entries(state.delivery_timestamps@),
            kept_texts == texts(kept@),
            m <= old_entries.len(),
            dropped == exists|j: int| 0 <= j < m && !kept_texts.contains(old_entries[j].0),
        decreases old_entries.len() - m,
    {
        if !contains_text(&kept, state.delivery_timestamps[m].0.as_str()) {
            dropped = true;
        }
        assert(old_entries[m as int].0 == state.delivery_timestamps@[m as int].0@);
        m = m + 1;
    }

    let ghost result = pruned(s0, now);
    let ghost new_map = entries_map(stamp_entries(new_stamps@));
    assert(new_map == result.delivery_timestamps);
    proof {
        if !added && !dropped {
            assert forall|id: Seq<char>| #[trigger] stamps.contains_key(id) implies kept_texts.contains(id) by {
                lemma_entries_map_domain(old_entries, id);
            }
            assert forall|id: Seq<char>| #[trigger] kept_texts.contains(id) implies stamps.contains_key(id) by {
                let j = choose|j: int| 0 <= j < kept_texts.len() && kept_texts[j] == id;
            }
            assert(new_map =~= stamps);
        }
        if added {
            let j = choose|j: int| 0 <= j < kept_texts.len() && !stamps.contains_key(kept_texts[j]);
            assert(new_map.contains_key(kept_texts[j]));
            assert(new_map != stamps);
        }
        if dropped {
            let j = choose|j: int| 0 <= j < old_entries.len() && !kept_texts.contains(old_entries[j].0);
            lemma_entries_map_domain(old_entries, old_entries[j].0);
            assert(!new_map.contains_key(old_entries[j].0));
            assert(new_map != stamps);
        }
        if !removed {
            assert(kept_texts.len() == s0.deliveries.len());
        }
    }
    state.deliveries = kept;
    state.delivery_timestamps = new_stamps;
    removed || added || dropped
}

/// Filtering keeps a sequence whose every element passes.
proof fn lemma_filter_keeps_all(s: Seq<Seq<char>>, pred: spec_fn(Seq<char>) -> bool)
    requires
        forall|i: int| 0 <= i < s.len() ==> pred(s[i]),
    ensures
        s.filter(pred) == s,
    decreases s.len(),
{
    reveal(Seq::filter);
    if s.len() > 0 {
        lemma_filter_keeps_all(s.drop_last(), pred);
        assert(s.drop_last().push(s.last()) == s);
    }
}

/// Pruning twice at the same time is pruning once.
pub proof fn prune_is_idempotent(s: StateView, now: u64)
    ensures
        pruned(pruned(s, now), now) == pruned(s, now),
{
    let p = pruned(s, now);
    let pred = |id: Seq<char>| is_fresh(p.delivery_timestamps, id, now);
    let kept = p.deliveries;
    assert forall|i: int| 0 <= i < kept.len() implies pred(kept[i]) by {
        s.deliveries.lemma_filter_pred(|id: Seq<char>| is_fresh(s.delivery_timestamps, id, now), i);
        assert(kept.contains(kept[i]));
    }
    lemma_filter_keeps_all(kept, pred);
    assert(pruned(p, now).delivery_timestamps =~= p.delivery_timestamps);
}

/// Pruning keeps every delivery processed at most three days before `now`,
/// however many deliveries were processed since.
pub proof fn prune_keeps_recent_deliveries(s: StateView, now: u64, id: Seq<char>)
    requires
        s.deliveries.contains(id),
        is_fresh(s.delivery_timestamps, id, now),
    ensures
        pruned(s, now).deliveries.contains(id),
        pruned(s, now).delivery_timestamps[id] == stamp_or(s.delivery_timestamps, id, now),
{
    let i = choose|i: int| 0 <= i < s.deliveries.len() && s.deliveries[i] == id;
    s.deliveries.lemma_filter_contains(|x: Seq<char>| is_fresh(s.delivery_timestamps, x, now), i);
}

/// Pruning forgets every delivery processed more than three days before `now`.
pub proof fn prune_forgets_old_deliveries(s: StateView, now: u64, id: Seq<char>)
    requires
        !is_fresh(s.delivery_timestamps, id, now),
    ensures
        !pruned(s, now).deliveries.contains(id),
        !pruned(s, now).delivery_timestamps.contains_key(id),
{
    let pred = |x: Seq<char>| is_fresh(s.delivery_timestamps, x, now);
    if pruned(s, now).deliveries.contains(id) {
        let i = choose|i: int|
            0 <= i < pruned(s, now).deliveries.len() && pruned(s, now).deliveries[i] == id;
        s.deliveries.lemma_filter_pred(pred, i);
    }
}

} // verus!
