//! The plugin registry: turns the bundle sources discovered on disk into a
//! backing set of plugins with pairwise-distinct ids, and an index from file
//! extension to the plugins claiming it. Built at most once per process and
//! memoized; read-only thereafter.

use vstd::prelude::*;

verus! {

use crate::config::{find_section, Config, has_section};
use crate::logs::{add_log, LogKind, Logs};
use crate::plugin::{Plugin, PluginView};
use crate::sandbox::parse_plugin_details;
use vstd::string::StringExecFns;

/// Whether some plugin of the sequence carries the given id.
pub open spec fn has_plugin_id(ps: Seq<Plugin>, id: Seq<char>) -> bool {
    exists|i: int| 0 <= i < ps.len() && ps[i]@.details.id == id
}

/// The discovered plugins with every later duplicate of an id dropped: the
/// backing set holds no two plugins with the same id, and the first-discovered
/// bundle of an id wins.
pub open spec fn dedupe_by_id(ps: Seq<Plugin>) -> Seq<Plugin>
    decreases ps.len(),
{
    if ps.len() == 0 {
        Seq::empty()
    } else {
        let prev = dedupe_by_id(ps.drop_last());
        if has_plugin_id(prev, ps.last()@.details.id) {
            prev
        } else {
            prev.push(ps.last())
        }
    }
}

/// Whether a plugin claims the given file extension.
pub open spec fn claims(p: PluginView, ext: Seq<char>) -> bool {
    exists|e: int| 0 <= e < p.details.extensions.len() && p.details.extensions[e] == ext
}

/// Soundness of an extension index over its backing sequence: bucket keys are
/// pairwise distinct; every bucket entry points into the backing sequence, at
/// a plugin that claims the bucket's extension; and a bucket lists its plugins
/// in backing order, each at most once.
pub open spec fn index_wf(index: Seq<(String, Vec<usize>)>, ps: Seq<Plugin>) -> bool {
    &&& forall|a: int, b: int|
        0 <= a < index.len() && 0 <= b < index.len() && a != b ==> index[a].0@ != index[b].0@
    &&& forall|a: int, k: int|
        0 <= a < index.len() && 0 <= k < index[a].1@.len() ==> #[trigger] index[a].1@[k]
            < ps.len() && claims(ps[index[a].1@[k] as int]@, index[a].0@)
    &&& forall|a: int, k1: int, k2: int|
        0 <= a < index.len() && 0 <= k1 < k2 < index[a].1@.len() ==> index[a].1@[k1]
            < index[a].1@[k2]
}

/// Whether the index lists backing position `p` under extension `ext`.
pub open spec fn listed(index: Seq<(String, Vec<usize>)>, ext: Seq<char>, p: usize) -> bool {
    exists|a: int|
        0 <= a < index.len() && (#[trigger] index[a]).0@ == ext && index[a].1@.contains(p)
}

/// Completeness of an extension index over its backing sequence: every
/// extension a backing plugin claims has a bucket under that key listing the
/// plugin, so a plugin claiming N distinct extensions appears in N buckets.
pub open spec fn index_complete(index: Seq<(String, Vec<usize>)>, ps: Seq<Plugin>) -> bool {
    complete_upto(index, ps, ps.len() as int)
}

/// Completeness restricted to the first `n` backing plugins.
pub open spec fn complete_upto(index: Seq<(String, Vec<usize>)>, ps: Seq<Plugin>, n: int) -> bool {
    forall|i: int, e: int|
        0 <= i < n && 0 <= e < ps[i]@.details.extensions.len() ==> listed(
            index,
            #[trigger] ps[i]@.details.extensions[e],
            i as usize,
        )
}

/// Whether every bucket entry lies below `n`.
pub open spec fn entries_below(index: Seq<(String, Vec<usize>)>, n: int) -> bool {
    forall|a: int, k: int|
        0 <= a < index.len() && 0 <= k < index[a].1@.len() ==> #[trigger] index[a].1@[k] < n
}

/// Extending buckets at the back, or adding buckets, never un-lists anything.
proof fn lemma_listed_monotone(
    index0: Seq<(String, Vec<usize>)>,
    index1: Seq<(String, Vec<usize>)>,
)
    requires
        index0.len() <= index1.len(),
        forall|a: int|
            0 <= a < index0.len() ==> (#[trigger] index1[a]).0@ == index0[a].0@
                && index0[a].1@.is_prefix_of(index1[a].1@),
    ensures
        forall|ext: Seq<char>, p: usize| #[trigger]
            listed(index0, ext, p) ==> listed(index1, ext, p),
{
    assert forall|ext: Seq<char>, p: usize| #[trigger]
        listed(index0, ext, p) implies listed(index1, ext, p) by {
        let a = choose|a: int|
            0 <= a < index0.len() && (#[trigger] index0[a]).0@ == ext && index0[a].1@.contains(p);
        let k = choose|k: int| 0 <= k < index0[a].1@.len() && index0[a].1@[k] == p;
        assert(index1[a].1@[k] == p);
        assert(index1[a].1@.contains(p));
        assert(0 <= a < index1.len() && index1[a].0@ == ext && index1[a].1@.contains(p));
    }
}

/// Whether the ids of the sequence are pairwise distinct.
pub open spec fn distinct_ids(ps: Seq<Plugin>) -> bool {
    forall|i: int, j: int|
        0 <= i < ps.len() && 0 <= j < ps.len() && i != j ==> ps[i]@.details.id != ps[j]@.details.id
}

/// The backing set holds no two plugins with the same id.
pub proof fn lemma_dedupe_distinct_ids(ps: Seq<Plugin>)
    ensures
        distinct_ids(dedupe_by_id(ps)),
        forall|i: int|
            0 <= i < dedupe_by_id(ps).len() ==> ps.contains(#[trigger] dedupe_by_id(ps)[i]),
    decreases ps.len(),
{
    if ps.len() > 0 {
        lemma_dedupe_distinct_ids(ps.drop_last());
        let prev = dedupe_by_id(ps.drop_last());
        assert(forall|i: int| 0 <= i < prev.len() ==> ps.drop_last().contains(#[trigger] prev[i]));
        assert(forall|i: int|
            0 <= i < ps.drop_last().len() ==> ps.contains(#[trigger] ps.drop_last()[i]));
        assert(ps.contains(ps.last()));
        if !has_plugin_id(prev, ps.last()@.details.id) {
            let cur = prev.push(ps.last());
            assert forall|i: int, j: int|
                0 <= i < cur.len() && 0 <= j < cur.len() && i != j implies cur[i]@.details.id
                != cur[j]@.details.id by {
                if i < prev.len() && j < prev.len() {
                } else if i < prev.len() && j == prev.len() {
                    assert(!has_plugin_id(prev, cur[j]@.details.id));
                } else if j < prev.len() && i == prev.len() {
                    assert(!has_plugin_id(prev, cur[i]@.details.id));
                }
            }
        }
    }
}

fn contains_id(ps: &Vec<Plugin>, id: &String) -> (r: bool)
    ensures
        r == has_plugin_id(ps@, id@),
{
    let mut i: usize = 0;
    while i < ps.len()
        invariant
            i <= ps@.len(),
            forall|j: int| 0 <= j < i ==> ps@[j]@.details.id != id@,
        decreases ps@.len() - i,
    {
        if ps[i].details.id.eq(id) {
            return true;
        }
        i = i + 1;
    }
    false
}

/// Parses the metadata script of every discovered bundle. A bundle whose
/// script fails to run, or whose `Details` record does not convert, is skipped
/// after one discovery-error entry is logged; it never aborts the scan. Each
/// surviving bundle becomes one plugin carrying that bundle's path.
pub fn list_plugins(bundles: &Vec<(String, String)>, logs: &mut Logs) -> (r: Vec<Plugin>)
    ensures
        r@.len() + final(logs)@.len() == bundles@.len() + old(logs)@.len(),
        final(logs)@.len() >= old(logs)@.len(),
        final(logs)@.take(old(logs)@.len() as int) == old(logs)@,
        forall|k: int|
            old(logs)@.len() <= k < final(logs)@.len() ==> (#[trigger] final(logs)@[k]).0
                == LogKind::Error,
{
    let ghost logs0 = logs@;
    let mut r: Vec<Plugin> = Vec::new();
    let mut i: usize = 0;
    while i < bundles.len()
        invariant
            i <= bundles@.len(),
            r@.len() + logs@.len() == i + logs0.len(),
            logs@.len() >= logs0.len(),
            logs@.take(logs0.len() as int) == logs0,
            forall|k: int|
                logs0.len() <= k < logs@.len() ==> (#[trigger] logs@[k]).0 == LogKind::Error,
        decreases bundles@.len() - i,
    {
        match parse_plugin_details(bundles[i].1.as_str()) {
            Ok(details) => {
                r.push(Plugin { details, path: bundles[i].0.clone() });
            },
            Err(_) => {
                let message = String::from_str("Error loading plugin ").concat(
                    bundles[i].0.as_str(),
                );
                let ghost before = logs@;
                add_log(logs, LogKind::Error, message);
                proof {
                    assert(logs@.take(logs0.len() as int) =~= before.take(logs0.len() as int));
                }
            },
        }
        i = i + 1;
    }
    r
}

/// The memoized registry state: the backing plugin set and the extension
/// index, each computed at most once per process and never mutated after.
pub struct PluginRegistry {
    plugins: Option<Vec<Plugin>>,
    index: Option<Vec<(String, Vec<usize>)>>,
}

impl PluginRegistry {
    /// Whether the one-time build has happened.
    pub closed spec fn is_built(&self) -> bool {
        self.plugins is Some && self.index is Some
    }

    /// The backing set of discovered plugins.
    pub closed spec fn spec_plugins(&self) -> Seq<Plugin> {
        self.plugins->0@
    }

    /// The extension index over the backing set.
    pub closed spec fn spec_index(&self) -> Seq<(String, Vec<usize>)> {
        self.index->0@
    }

    /// The registry invariant: once built, the backing set holds no two
    /// plugins with the same id and ascends by id, and the index is sound and
    /// complete over it.
    pub open spec fn inv(&self) -> bool {
        self.is_built() ==> {
            &&& distinct_ids(self.spec_plugins())
            &&& sorted_by_id(self.spec_plugins())
            &&& index_wf(self.spec_index(), self.spec_plugins())
            &&& index_complete(self.spec_index(), self.spec_plugins())
        }
    }

    /// A registry that has not been built yet.
    pub fn new() -> (r: PluginRegistry)
        ensures
            !r.is_built(),
            r.inv(),
    {
        PluginRegistry { plugins: None, index: None }
    }

    /// Whether the one-time build has happened.
    pub fn built(&self) -> (r: bool)
        ensures
            r == self.is_built(),
    {
        self.plugins.is_some() && self.index.is_some()
    }

    /// The backing plugin set, in discovery order.
    pub fn plugins(&self) -> (r: &Vec<Plugin>)
        requires
            self.is_built(),
        ensures
            r@ == self.spec_plugins(),
    {
        match &self.plugins {
            Some(ps) => ps,
            None => unreached(),
        }
    }

    /// The extension index: for each claimed extension, the positions in the
    /// backing set of the plugins claiming it, in backing order.
    ///
    /// On the first call the registry is built from the discovered plugins:
    /// the backing set is `discovered` with later duplicates of an id dropped,
    /// reordered ascending by id, and the index is computed over it. Every
    /// later call ignores its argument and returns the memoized index
    /// unchanged — the idempotence the engine relies on for reproducible runs.
    pub fn get_plugin_map(&mut self, discovered: Vec<Plugin>) -> (r: &Vec<(String, Vec<usize>)>)
        requires
            old(self).inv(),
        ensures
            final(self).is_built(),
            final(self).inv(),
            old(self).is_built() ==> *final(self) == *old(self),
            !old(self).is_built() ==> final(self).spec_plugins() == sort_by_id(
                dedupe_by_id(discovered@),
            ),
            r@ == final(self).spec_index(),
    {
        if self.plugins.is_none() || self.index.is_none() {
            let deduped = dedupe_plugins(discovered);
            proof {
                lemma_dedupe_distinct_ids(discovered@);
                lemma_sort_by_id_props(deduped@);
            }
            let backing = sort_plugins(deduped);
            let index = build_extension_index(&backing);
            self.plugins = Some(backing);
            self.index = Some(index);
        }
        match &self.index {
            Some(index) => index,
            None => unreached(),
        }
    }
}

/// Lexicographic order on character sequences by code point: the total order
/// that keeps the backing set's iteration deterministic.
pub open spec fn spec_str_le(a: Seq<char>, b: Seq<char>) -> bool
    decreases a.len(),
{
    if a.len() == 0 {
        true
    } else if b.len() == 0 {
        false
    } else if (a[0] as u32) < (b[0] as u32) {
        true
    } else if (a[0] as u32) > (b[0] as u32) {
        false
    } else {
        spec_str_le(a.drop_first(), b.drop_first())
    }
}

/// The order is total.
pub proof fn lemma_str_le_total(a: Seq<char>, b: Seq<char>)
    ensures
        spec_str_le(a, b) || spec_str_le(b, a),
    decreases a.len(),
{
    if a.len() > 0 && b.len() > 0 && (a[0] as u32) == (b[0] as u32) {
        lemma_str_le_total(a.drop_first(), b.drop_first());
    }
}

/// The order is transitive.
pub proof fn lemma_str_le_trans(a: Seq<char>, b: Seq<char>, c: Seq<char>)
    requires
        spec_str_le(a, b),
        spec_str_le(b, c),
    ensures
        spec_str_le(a, c),
    decreases a.len(),
{
    if a.len() > 0 {
        assert(b.len() > 0);
        assert(c.len() > 0);
        if (a[0] as u32) == (b[0] as u32) && (b[0] as u32) == (c[0] as u32) {
            lemma_str_le_trans(a.drop_first(), b.drop_first(), c.drop_first());
        }
    }
}

fn str_le(a: &str, b: &str) -> (r: bool)
    ensures
        r == spec_str_le(a@, b@),
{
    let a_len = a.unicode_len();
    let b_len = b.unicode_len();
    let mut i: usize = 0;
    proof {
        assert(a@.skip(0) =~= a@);
        assert(b@.skip(0) =~= b@);
    }
    loop
        invariant
            i <= a_len,
            i <= b_len,
            a_len == a@.len(),
            b_len == b@.len(),
            spec_str_le(a@, b@) == spec_str_le(a@.skip(i as int), b@.skip(i as int)),
        decreases a_len - i,
    {
        if i >= a_len {
            proof {
                assert(a@.skip(i as int).len() == 0);
            }
            return true;
        }
        if i >= b_len {
            proof {
                assert(a@.skip(i as int).len() > 0);
                assert(b@.skip(i as int).len() == 0);
            }
            return false;
        }
        let ca = a.get_char(i) as u32;
        let cb = b.get_char(i) as u32;
        proof {
            assert(a@.skip(i as int)[0] == a@[i as int]);
            assert(b@.skip(i as int)[0] == b@[i as int]);
        }
        if ca < cb {
            return true;
        }
        if ca > cb {
            return false;
        }
        proof {
            assert(a@.skip(i as int).drop_first() =~= a@.skip(i + 1 as int));
            assert(b@.skip(i as int).drop_first() =~= b@.skip(i + 1 as int));
        }
        i = i + 1;
    }
}

/// `p` placed behind every plugin whose id is at most `p`'s id.
pub open spec fn insert_by_id(ps: Seq<Plugin>, p: Plugin) -> Seq<Plugin>
    decreases ps.len(),
{
    if ps.len() == 0 {
        seq![p]
    } else if spec_str_le(ps.first()@.details.id, p@.details.id) {
        seq![ps.first()] + insert_by_id(ps.drop_first(), p)
    } else {
        seq![p] + ps
    }
}

/// The plugins reordered ascending by id: the deterministic iteration order of
/// the backing set.
pub open spec fn sort_by_id(ps: Seq<Plugin>) -> Seq<Plugin>
    decreases ps.len(),
{
    if ps.len() == 0 {
        Seq::empty()
    } else {
        insert_by_id(sort_by_id(ps.drop_last()), ps.last())
    }
}

/// Whether the plugins ascend by id.
pub open spec fn sorted_by_id(ps: Seq<Plugin>) -> bool {
    forall|i: int, j: int|
        0 <= i < j < ps.len() ==> spec_str_le(ps[i]@.details.id, ps[j]@.details.id)
}

proof fn lemma_has_id_cons(x: Plugin, s: Seq<Plugin>)
    ensures
        forall|id: Seq<char>| #[trigger]
            has_plugin_id(seq![x] + s, id) <==> (x@.details.id == id || has_plugin_id(s, id)),
{
    let c = seq![x] + s;
    assert forall|id: Seq<char>| #[trigger]
        has_plugin_id(c, id) <==> (x@.details.id == id || has_plugin_id(s, id)) by {
        if has_plugin_id(c, id) {
            let i = choose|i: int| 0 <= i < c.len() && c[i]@.details.id == id;
            if i > 0 {
                assert(s[i - 1]@.details.id == id);
            }
        }
        if x@.details.id == id {
            assert(c[0]@.details.id == id);
        }
        if has_plugin_id(s, id) {
            let i = choose|i: int| 0 <= i < s.len() && s[i]@.details.id == id;
            assert(c[i + 1]@.details.id == id);
        }
    }
}

proof fn lemma_distinct_cons(x: Plugin, s: Seq<Plugin>)
    requires
        distinct_ids(s),
        !has_plugin_id(s, x@.details.id),
    ensures
        distinct_ids(seq![x] + s),
{
    let c = seq![x] + s;
    assert forall|i: int, j: int|
        0 <= i < c.len() && 0 <= j < c.len() && i != j implies c[i]@.details.id
        != c[j]@.details.id by {
        if i == 0 && j > 0 {
            assert(c[j] == s[j - 1]);
            assert(s[j - 1]@.details.id != x@.details.id) by {
                if s[j - 1]@.details.id == x@.details.id {
                    assert(has_plugin_id(s, x@.details.id));
                }
            }
        } else if j == 0 && i > 0 {
            assert(c[i] == s[i - 1]);
            assert(s[i - 1]@.details.id != x@.details.id) by {
                if s[i - 1]@.details.id == x@.details.id {
                    assert(has_plugin_id(s, x@.details.id));
                }
            }
        } else if i > 0 && j > 0 {
            assert(c[i] == s[i - 1] && c[j] == s[j - 1]);
        }
    }
}

/// What one sorted insertion does to the set: the ids gain `p`'s id, no id is
/// lost, distinctness survives a fresh id, and ascending order survives.
proof fn lemma_insert_by_id_props(ps: Seq<Plugin>, p: Plugin)
    ensures
        insert_by_id(ps, p).len() == ps.len() + 1,
        forall|id: Seq<char>| #[trigger]
            has_plugin_id(insert_by_id(ps, p), id) <==> (has_plugin_id(ps, id) || p@.details.id
                == id),
        forall|x: Plugin| #[trigger]
            insert_by_id(ps, p).contains(x) <==> (ps.contains(x) || x == p),
        distinct_ids(ps) && !has_plugin_id(ps, p@.details.id) ==> distinct_ids(
            insert_by_id(ps, p),
        ),
        sorted_by_id(ps) ==> sorted_by_id(insert_by_id(ps, p)),
    decreases ps.len(),
{
    if ps.len() == 0 {
        let cur = insert_by_id(ps, p);
        assert(cur =~= seq![p]);
        assert forall|id: Seq<char>| #[trigger]
            has_plugin_id(cur, id) <==> (has_plugin_id(ps, id) || p@.details.id == id) by {
            if p@.details.id == id {
                assert(cur[0]@.details.id == id);
            }
        }
        assert forall|x: Plugin| #[trigger] cur.contains(x) <==> (ps.contains(x) || x == p) by {
            assert(cur[0] == p);
        }
    } else if spec_str_le(ps.first()@.details.id, p@.details.id) {
        lemma_insert_by_id_props(ps.drop_first(), p);
        let rec = insert_by_id(ps.drop_first(), p);
        let cur = seq![ps.first()] + rec;
        assert(insert_by_id(ps, p) == cur);
        lemma_has_id_cons(ps.first(), rec);
        lemma_has_id_cons(ps.first(), ps.drop_first());
        assert(ps =~= seq![ps.first()] + ps.drop_first());
        // membership as values
        assert forall|x: Plugin| #[trigger] cur.contains(x) <==> (ps.contains(x) || x == p) by {
            if cur.contains(x) {
                let i = choose|i: int| 0 <= i < cur.len() && cur[i] == x;
                if i == 0 {
                    assert(ps[0] == x);
                } else {
                    assert(rec[i - 1] == x);
                    assert(rec.contains(x));
                    if ps.drop_first().contains(x) {
                        let j = choose|j: int| 0 <= j < ps.drop_first().len() && ps.drop_first()[j]
                            == x;
                        assert(ps[j + 1] == x);
                    }
                }
            }
            if ps.contains(x) {
                let i = choose|i: int| 0 <= i < ps.len() && ps[i] == x;
                if i == 0 {
                    assert(cur[0] == x);
                } else {
                    assert(ps.drop_first()[i - 1] == x);
                    assert(ps.drop_first().contains(x));
                    assert(rec.contains(x));
                    let j = choose|j: int| 0 <= j < rec.len() && rec[j] == x;
                    assert(cur[j + 1] == x);
                }
            }
            if x == p {
                assert(rec.contains(x));
                let j = choose|j: int| 0 <= j < rec.len() && rec[j] == x;
                assert(cur[j + 1] == x);
            }
        }
        if distinct_ids(ps) && !has_plugin_id(ps, p@.details.id) {
            assert(distinct_ids(ps.drop_first())) by {
                assert forall|i: int, j: int|
                    0 <= i < ps.drop_first().len() && 0 <= j < ps.drop_first().len() && i
                        != j implies ps.drop_first()[i]@.details.id
                    != ps.drop_first()[j]@.details.id by {
                    assert(ps.drop_first()[i] == ps[i + 1] && ps.drop_first()[j] == ps[j + 1]);
                }
            }
            assert(!has_plugin_id(ps.drop_first(), p@.details.id));
            assert(!has_plugin_id(rec, ps.first()@.details.id)) by {
                assert(!has_plugin_id(ps.drop_first(), ps.first()@.details.id)) by {
                    if has_plugin_id(ps.drop_first(), ps.first()@.details.id) {
                        let i = choose|i: int|
                            0 <= i < ps.drop_first().len() && ps.drop_first()[i]@.details.id
                                == ps.first()@.details.id;
                        assert(ps[i + 1]@.details.id == ps[0]@.details.id);
                    }
                }
                assert(p@.details.id != ps.first()@.details.id) by {
                    if p@.details.id == ps.first()@.details.id {
                        assert(ps[0]@.details.id == p@.details.id);
                        assert(has_plugin_id(ps, p@.details.id));
                    }
                }
            }
            lemma_distinct_cons(ps.first(), rec);
        }
        if sorted_by_id(ps) {
            assert(sorted_by_id(ps.drop_first())) by {
                assert forall|i: int, j: int|
                    0 <= i < j < ps.drop_first().len() implies spec_str_le(
                    ps.drop_first()[i]@.details.id,
                    ps.drop_first()[j]@.details.id,
                ) by {
                    assert(ps.drop_first()[i] == ps[i + 1] && ps.drop_first()[j] == ps[j + 1]);
                }
            }
            assert forall|i: int, j: int|
                0 <= i < j < cur.len() implies spec_str_le(
                cur[i]@.details.id,
                cur[j]@.details.id,
            ) by {
                if i == 0 {
                    assert(cur[j] == rec[j - 1]);
                    assert(rec.contains(rec[j - 1]));
                    if rec[j - 1] == p {
                        assert(spec_str_le(ps.first()@.details.id, p@.details.id));
                    } else {
                        assert(ps.drop_first().contains(rec[j - 1]));
                        let k = choose|k: int|
                            0 <= k < ps.drop_first().len() && ps.drop_first()[k] == rec[j - 1];
                        assert(ps[k + 1] == rec[j - 1]);
                        assert(spec_str_le(ps[0]@.details.id, ps[k + 1]@.details.id));
                    }
                } else {
                    assert(cur[i] == rec[i - 1] && cur[j] == rec[j - 1]);
                }
            }
        }
    } else {
        let cur = seq![p] + ps;
        assert(insert_by_id(ps, p) == cur);
        lemma_has_id_cons(p, ps);
        assert forall|x: Plugin| #[trigger] cur.contains(x) <==> (ps.contains(x) || x == p) by {
            if cur.contains(x) {
                let i = choose|i: int| 0 <= i < cur.len() && cur[i] == x;
                if i > 0 {
                    assert(ps[i - 1] == x);
                }
            }
            if ps.contains(x) {
                let i = choose|i: int| 0 <= i < ps.len() && ps[i] == x;
                assert(cur[i + 1] == x);
            }
            if x == p {
                assert(cur[0] == x);
            }
        }
        if distinct_ids(ps) && !has_plugin_id(ps, p@.details.id) {
            lemma_distinct_cons(p, ps);
        }
        if sorted_by_id(ps) {
            lemma_str_le_total(ps.first()@.details.id, p@.details.id);
            assert(spec_str_le(p@.details.id, ps.first()@.details.id));
            assert forall|i: int, j: int|
                0 <= i < j < cur.len() implies spec_str_le(
                cur[i]@.details.id,
                cur[j]@.details.id,
            ) by {
                if i == 0 {
                    assert(cur[j] == ps[j - 1]);
                    if j - 1 > 0 {
                        assert(spec_str_le(ps[0]@.details.id, ps[j - 1]@.details.id));
                        lemma_str_le_trans(
                            p@.details.id,
                            ps[0]@.details.id,
                            ps[j - 1]@.details.id,
                        );
                    }
                } else {
                    assert(cur[i] == ps[i - 1] && cur[j] == ps[j - 1]);
                }
            }
        }
    }
}

/// Law: sorting the backing set keeps exactly the discovered ids — none is
/// lost, none appears twice — and leaves the set ascending by id.
pub proof fn lemma_sort_by_id_props(ps: Seq<Plugin>)
    ensures
        sort_by_id(ps).len() == ps.len(),
        forall|id: Seq<char>| #[trigger]
            has_plugin_id(sort_by_id(ps), id) <==> has_plugin_id(ps, id),
        forall|x: Plugin| #[trigger] sort_by_id(ps).contains(x) <==> ps.contains(x),
        distinct_ids(ps) ==> distinct_ids(sort_by_id(ps)),
        sorted_by_id(sort_by_id(ps)),
    decreases ps.len(),
{
    if ps.len() > 0 {
        lemma_sort_by_id_props(ps.drop_last());
        lemma_insert_by_id_props(sort_by_id(ps.drop_last()), ps.last());
        assert forall|id: Seq<char>| #[trigger]
            has_plugin_id(ps, id) <==> (has_plugin_id(ps.drop_last(), id) || ps.last()@.details.id
                == id) by {
            if has_plugin_id(ps, id) {
                let i = choose|i: int| 0 <= i < ps.len() && ps[i]@.details.id == id;
                if i < ps.len() - 1 {
                    assert(ps.drop_last()[i]@.details.id == id);
                }
            }
            if has_plugin_id(ps.drop_last(), id) {
                let i = choose|i: int|
                    0 <= i < ps.drop_last().len() && ps.drop_last()[i]@.details.id == id;
                assert(ps[i]@.details.id == id);
            }
            if ps.last()@.details.id == id {
                assert(ps[ps.len() - 1]@.details.id == id);
            }
        }
        assert forall|x: Plugin| #[trigger] ps.contains(x) <==> (ps.drop_last().contains(x)
            || ps.last() == x) by {
            if ps.contains(x) {
                let i = choose|i: int| 0 <= i < ps.len() && ps[i] == x;
                if i < ps.len() - 1 {
                    assert(ps.drop_last()[i] == x);
                }
            }
            if ps.drop_last().contains(x) {
                let i = choose|i: int| 0 <= i < ps.drop_last().len() && ps.drop_last()[i] == x;
                assert(ps[i] == x);
            }
        }
        if distinct_ids(ps) {
            assert(distinct_ids(ps.drop_last())) by {
                assert forall|i: int, j: int|
                    0 <= i < ps.drop_last().len() && 0 <= j < ps.drop_last().len() && i
                        != j implies ps.drop_last()[i]@.details.id
                    != ps.drop_last()[j]@.details.id by {
                    assert(ps.drop_last()[i] == ps[i] && ps.drop_last()[j] == ps[j]);
                }
            }
            assert(!has_plugin_id(ps.drop_last(), ps.last()@.details.id)) by {
                if has_plugin_id(ps.drop_last(), ps.last()@.details.id) {
                    let i = choose|i: int|
                        0 <= i < ps.drop_last().len() && ps.drop_last()[i]@.details.id
                            == ps.last()@.details.id;
                    assert(ps[i]@.details.id == ps[ps.len() - 1]@.details.id);
                }
            }
        }
    }
}

/// The position `insert_by_id` puts `p` at: behind every id at most `p`'s.
fn insert_position(r: &Vec<Plugin>, p: &Plugin) -> (pos: usize)
    ensures
        pos <= r@.len(),
        insert_by_id(r@, *p) == r@.take(pos as int) + seq![*p] + r@.skip(pos as int),
{
    let mut pos: usize = 0;
    proof {
        assert(r@.skip(0) =~= r@);
        assert(r@.take(0) + insert_by_id(r@, *p) =~= insert_by_id(r@, *p));
    }
    while pos < r.len()
        invariant
            pos <= r@.len(),
            insert_by_id(r@, *p) == r@.take(pos as int) + insert_by_id(
                r@.skip(pos as int),
                *p,
            ),
        decreases r@.len() - pos,
    {
        if !str_le(r[pos].details.id.as_str(), p.details.id.as_str()) {
            proof {
                assert(r@.skip(pos as int).len() > 0);
                assert(r@.skip(pos as int).first() == r@[pos as int]);
                assert(insert_by_id(r@.skip(pos as int), *p) == seq![*p] + r@.skip(pos as int));
            }
            return pos;
        }
        proof {
            let rest = r@.skip(pos as int);
            assert(rest.len() > 0);
            assert(rest.first() == r@[pos as int]);
            assert(insert_by_id(rest, *p) == seq![rest.first()] + insert_by_id(
                rest.drop_first(),
                *p,
            ));
            assert(rest.drop_first() =~= r@.skip(pos + 1 as int));
            assert(r@.take(pos + 1 as int) =~= r@.take(pos as int) + seq![r@[pos as int]]);
            assert(r@.take(pos as int) + seq![rest.first()] + insert_by_id(
                r@.skip(pos + 1 as int),
                *p,
            ) =~= r@.take(pos + 1 as int) + insert_by_id(r@.skip(pos + 1 as int), *p));
        }
        pos = pos + 1;
    }
    proof {
        assert(r@.skip(pos as int).len() == 0);
        assert(insert_by_id(r@.skip(pos as int), *p) =~= seq![*p]);
        assert(r@.take(pos as int) + seq![*p] =~= r@.take(pos as int) + seq![*p] + r@.skip(
            pos as int,
        ));
    }
    pos
}

/// Reorders the deduplicated backing set ascending by id.
fn sort_plugins(ps: Vec<Plugin>) -> (r: Vec<Plugin>)
    ensures
        r@ == sort_by_id(ps@),
{
    let ghost orig = ps@;
    let mut rest = ps;
    let mut r: Vec<Plugin> = Vec::new();
    let ghost mut i: int = 0;
    while rest.len() > 0
        invariant
            0 <= i <= orig.len(),
            rest@ == orig.skip(i),
            r@ == sort_by_id(orig.take(i)),
        decreases rest@.len(),
    {
        let p = rest.remove(0);
        proof {
            assert(orig.skip(i).len() > 0);
            assert(p == orig[i]);
            assert(orig.skip(i).remove(0) =~= orig.skip(i + 1));
            assert(orig.take(i + 1).drop_last() =~= orig.take(i));
            assert(orig.take(i + 1).last() == orig[i]);
        }
        let ghost r0 = r@;
        let pos = insert_position(&r, &p);
        r.insert(pos, p);
        proof {
            assert(r@ =~= r0.take(pos as int) + seq![p] + r0.skip(pos as int));
            i = i + 1;
        }
    }
    proof {
        assert(orig.take(orig.len() as int) =~= orig);
    }
    r
}

/// Drops every plugin whose id was already seen, keeping discovery order.
fn dedupe_plugins(discovered: Vec<Plugin>) -> (r: Vec<Plugin>)
    ensures
        r@ == dedupe_by_id(discovered@),
{
    let ghost orig = discovered@;
    let mut rest = discovered;
    let mut r: Vec<Plugin> = Vec::new();
    let ghost mut i: int = 0;
    while rest.len() > 0
        invariant
            0 <= i <= orig.len(),
            rest@ == orig.skip(i),
            r@ == dedupe_by_id(orig.take(i)),
        decreases rest@.len(),
    {
        let p = rest.remove(0);
        proof {
            assert(orig.skip(i).len() > 0);
            assert(p == orig[i]);
            assert(orig.skip(i).remove(0) =~= orig.skip(i + 1));
            assert(orig.take(i + 1).drop_last() =~= orig.take(i));
            assert(orig.take(i + 1).last() == orig[i]);
        }
        if !contains_id(&r, &p.details.id) {
            r.push(p);
        }
        proof {
            i = i + 1;
        }
    }
    proof {
        assert(orig.take(orig.len() as int) =~= orig);
    }
    r
}

/// Finds the bucket keyed by `ext`, if any.
fn find_bucket(index: &Vec<(String, Vec<usize>)>, ext: &String) -> (r: Option<usize>)
    ensures
        match r {
            Some(a) => a < index@.len() && index@[a as int].0@ == ext@,
            None => forall|a: int| 0 <= a < index@.len() ==> index@[a].0@ != ext@,
        },
{
    let mut a: usize = 0;
    while a < index.len()
        invariant
            a <= index@.len(),
            forall|b: int| 0 <= b < a ==> index@[b].0@ != ext@,
        decreases index@.len() - a,
    {
        if index[a].0.eq(ext) {
            return Some(a);
        }
        a = a + 1;
    }
    None
}

/// Builds the extension index: walks the backing set in order and, for each
/// extension a plugin claims, inserts the plugin's position into that
/// extension's bucket (creating the bucket at first claim). A plugin claiming
/// an extension twice is listed once.
fn build_extension_index(ps: &Vec<Plugin>) -> (r: Vec<(String, Vec<usize>)>)
    ensures
        index_wf(r@, ps@),
        index_complete(r@, ps@),
{
    let mut index: Vec<(String, Vec<usize>)> = Vec::new();
    let mut i: usize = 0;
    while i < ps.len()
        invariant
            i <= ps@.len(),
            index_wf(index@, ps@),
            entries_below(index@, i as int),
            complete_upto(index@, ps@, i as int),
        decreases ps@.len() - i,
    {
        let exts = &ps[i].details.extensions;
        let mut e: usize = 0;
        while e < exts.len()
            invariant
                i < ps@.len(),
                e <= exts@.len(),
                exts == &ps@[i as int].details.extensions,
                index_wf(index@, ps@),
                entries_below(index@, i + 1 as int),
                complete_upto(index@, ps@, i as int),
                forall|e2: int|
                    0 <= e2 < e ==> listed(
                        index@,
                        #[trigger] ps@[i as int]@.details.extensions[e2],
                        i,
                    ),
            decreases exts@.len() - e,
        {
            let ext = &exts[e];
            proof {
                assert(ps@[i as int]@.details.extensions[e as int] == ext@);
                assert(claims(ps@[i as int]@, ext@));
            }
            let ghost index0 = index@;
            match find_bucket(&index, ext) {
                Some(a) => {
                    let bucket_len = index[a].1.len();
                    let already = bucket_len > 0 && index[a].1[bucket_len - 1] == i;
                    if already {
                        proof {
                            assert(index@[a as int].1@.contains(i));
                            assert(listed(index@, ext@, i));
                        }
                    } else {
                        proof {
                            // every entry of bucket `a` is strictly below i:
                            // entries are at most i, the bucket ascends, and
                            // its last entry is not i.
                            if index0[a as int].1@.len() > 0 {
                                let blen = index0[a as int].1@.len() as int;
                                assert(index0[a as int].1@[blen - 1] < i + 1);
                                assert forall|k: int|
                                    0 <= k < blen implies index0[a as int].1@[k] < i by {
                                    if k < blen - 1 {
                                        assert(index0[a as int].1@[k] < index0[a as int].1@[blen
                                            - 1]);
                                    }
                                }
                            }
                        }
                        let pair = &mut index[a];
                        pair.1.push(i);
                        proof {
                            assert(index@ =~= index0.update(
                                a as int,
                                (index0[a as int].0, index@[a as int].1),
                            ));
                            assert(index@[a as int].1@ == index0[a as int].1@.push(i));
                            assert forall|b: int|
                                0 <= b < index0.len() implies (#[trigger] index@[b]).0@
                                == index0[b].0@ && index0[b].1@.is_prefix_of(index@[b].1@) by {
                                if b != a {
                                    assert(index@[b] == index0[b]);
                                    assert(index0[b].1@.is_prefix_of(index@[b].1@));
                                } else {
                                    assert(index0[b].1@.is_prefix_of(index@[b].1@));
                                }
                            }
                            lemma_listed_monotone(index0, index@);
                            assert(index@[a as int].1@.contains(i)) by {
                                assert(index@[a as int].1@[index0[a as int].1@.len() as int] == i);
                            }
                            assert(listed(index@, ext@, i));
                        }
                    }
                },
                None => {
                    let mut bucket: Vec<usize> = Vec::new();
                    bucket.push(i);
                    index.push((ext.clone(), bucket));
                    proof {
                        assert(index@ =~= index0.push(index@[index0.len() as int]));
                        assert forall|b: int|
                            0 <= b < index0.len() implies (#[trigger] index@[b]).0@ == index0[b].0@
                            && index0[b].1@.is_prefix_of(index@[b].1@) by {
                            assert(index@[b] == index0[b]);
                            assert(index0[b].1@.is_prefix_of(index@[b].1@));
                        }
                        lemma_listed_monotone(index0, index@);
                        assert(index@[index0.len() as int].1@[0] == i);
                        assert(index@[index0.len() as int].1@.contains(i));
                        assert(listed(index@, ext@, i));
                    }
                },
            }
            proof {
                assert forall|e2: int|
                    0 <= e2 < e + 1 implies listed(
                    index@,
                    #[trigger] ps@[i as int]@.details.extensions[e2],
                    i,
                ) by {
                    if e2 < e {
                        assert(listed(index0, ps@[i as int]@.details.extensions[e2], i));
                    }
                }
            }
            e = e + 1;
        }
        proof {
            assert forall|i2: int, e2: int|
                0 <= i2 < i + 1 && 0 <= e2 < ps@[i2]@.details.extensions.len() implies listed(
                index@,
                #[trigger] ps@[i2]@.details.extensions[e2],
                i2 as usize,
            ) by {
                if i2 < i {
                }
            }
        }
        i = i + 1;
    }
    proof {
        assert(complete_upto(index@, ps@, ps@.len() as int));
    }
    index
}

/// Law: a backing plugin appears somewhere in a sound and complete extension
/// index exactly when it claims at least one extension — so selecting from
/// the backing set by that test is the same as taking the union of the
/// index's buckets, deduplicated.
pub proof fn lemma_index_union(index: Seq<(String, Vec<usize>)>, ps: Seq<Plugin>, i: int)
    requires
        index_wf(index, ps),
        index_complete(index, ps),
        0 <= i < ps.len(),
        i <= usize::MAX as int,
    ensures
        (exists|a: int, k: int|
            0 <= a < index.len() && 0 <= k < index[a].1@.len() && #[trigger] index[a].1@[k] as int
                == i) <==> ps[i]@.details.extensions.len() > 0,
{
    if ps[i]@.details.extensions.len() > 0 {
        assert(listed(index, ps[i]@.details.extensions[0], i as usize));
        let a = choose|a: int|
            0 <= a < index.len() && (#[trigger] index[a]).0@ == ps[i]@.details.extensions[0]
                && index[a].1@.contains(i as usize);
        let k = choose|k: int| 0 <= k < index[a].1@.len() && index[a].1@[k] == i as usize;
        assert(index[a].1@[k] as int == i);
    }
    if exists|a: int, k: int|
        0 <= a < index.len() && 0 <= k < index[a].1@.len() && #[trigger] index[a].1@[k] as int
            == i {
        let (a, k) = choose|a: int, k: int|
            0 <= a < index.len() && 0 <= k < index[a].1@.len() && #[trigger] index[a].1@[k] as int
                == i;
        assert(claims(ps[i]@, index[a].0@));
    }
}

/// The plugins a run selects: the members of the backing set that appear in
/// the extension index (those claiming at least one extension) and whose id
/// has a section in the configuration — presence of that section is the
/// activation mechanism.
pub open spec fn selected(ps: Seq<Plugin>, config: &Config) -> Seq<PluginView> {
    ps.map(|i: int, p: Plugin| p@).filter(
        |p: PluginView| p.details.extensions.len() > 0 && has_section(config.linters@, p.details.id),
    )
}

impl PluginRegistry {
    /// Selects the plugins activated by the configuration, in backing order.
    pub fn select_active(&self, config: &Config) -> (r: Vec<Plugin>)
        requires
            self.is_built(),
        ensures
            r@.map(|i: int, p: Plugin| p@) == selected(self.spec_plugins(), config),
    {
        let ps = self.plugins();
        let ghost views = ps@.map(|i: int, p: Plugin| p@);
        let ghost pred = |p: PluginView|
            p.details.extensions.len() > 0 && has_section(config.linters@, p.details.id);
        let mut r: Vec<Plugin> = Vec::new();
        let mut i: usize = 0;
        proof {
            assert(views.take(0) =~= Seq::<PluginView>::empty());
            reveal_with_fuel(Seq::<PluginView>::filter, 1);
        }
        while i < ps.len()
            invariant
                i <= ps@.len(),
                views == ps@.map(|i: int, p: Plugin| p@),
                pred == (|p: PluginView|
                    p.details.extensions.len() > 0 && has_section(
                        config.linters@,
                        p.details.id,
                    )),
                r@.map(|i: int, p: Plugin| p@) == views.take(i as int).filter(pred),
            decreases ps@.len() - i,
        {
            let active = ps[i].details.extensions.len() > 0 && find_section(
                &config.linters,
                &ps[i].details.id,
            ).is_some();
            proof {
                assert(views.take(i + 1 as int).drop_last() =~= views.take(i as int));
                assert(views.take(i + 1 as int).last() == views[i as int]);
                reveal_with_fuel(Seq::<PluginView>::filter, 2);
                assert(views.take(i + 1 as int).filter(pred) == if pred(views[i as int]) {
                    views.take(i as int).filter(pred).push(views[i as int])
                } else {
                    views.take(i as int).filter(pred)
                });
            }
            if active {
                r.push(ps[i].clone());
                proof {
                    assert(r@.map(|i: int, p: Plugin| p@) =~= views.take(i + 1 as int).filter(
                        pred,
                    ));
                }
            }
            i = i + 1;
        }
        proof {
            assert(views.take(ps@.len() as int) =~= views);
        }
        r
    }
}

} // verus!
