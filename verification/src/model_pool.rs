//! The model pool: the configured models, each with a priority and an
//! enabled flag, from which requests are routed in priority order.
use vstd::prelude::*;
use crate::seqs::{first_index, lemma_first_index, lemma_first_index_at, lemma_first_index_none};
use crate::text;

verus! {

/// A single entry in the model pool.
pub struct ModelPoolEntry {
    pub id: String,
    pub name: String,
    pub base_url: String,
    pub api_key: String,
    pub model_name: String,
    pub priority: u32,
    pub enabled: bool,
    pub builtin: bool,
    pub provider_type: String,
    pub api_format: String,
}

/// The model of a [`ModelPoolEntry`].
pub struct EntryView {
    pub id: Seq<char>,
    pub name: Seq<char>,
    pub base_url: Seq<char>,
    pub api_key: Seq<char>,
    pub model_name: Seq<char>,
    pub priority: u32,
    pub enabled: bool,
    pub builtin: bool,
    pub provider_type: Seq<char>,
    pub api_format: Seq<char>,
}

impl View for ModelPoolEntry {
    type V = EntryView;

    open spec fn view(&self) -> EntryView {
        EntryView {
            id: self.id@,
            name: self.name@,
            base_url: self.base_url@,
            api_key: self.api_key@,
            model_name: self.model_name@,
            priority: self.priority,
            enabled: self.enabled,
            builtin: self.builtin,
            provider_type: self.provider_type@,
            api_format: self.api_format@,
        }
    }
}

/// The full model pool configuration.
pub struct ModelPool {
    pub pool_mode: bool,
    pub entries: Vec<ModelPoolEntry>,
    /// IDs of built-in models that were explicitly deleted by the user.
    /// These are not re-created by `init_builtins`.
    pub deleted_builtins: Vec<String>,
}

/// The model of a [`ModelPool`].
pub struct PoolView {
    pub pool_mode: bool,
    pub entries: Seq<EntryView>,
    pub deleted_builtins: Seq<Seq<char>>,
}

pub open spec fn entries_view(s: Seq<ModelPoolEntry>) -> Seq<EntryView> {
    s.map_values(|e: ModelPoolEntry| e@)
}

pub open spec fn strings_view(s: Seq<String>) -> Seq<Seq<char>> {
    s.map_values(|x: String| x@)
}

impl View for ModelPool {
    type V = PoolView;

    open spec fn view(&self) -> PoolView {
        PoolView {
            pool_mode: self.pool_mode,
            entries: entries_view(self.entries@),
            deleted_builtins: strings_view(self.deleted_builtins@),
        }
    }
}

pub broadcast proof fn lemma_entries_view_update(s: Seq<ModelPoolEntry>, i: int, x: ModelPoolEntry)
    requires
        0 <= i < s.len(),
    ensures
        #[trigger] entries_view(s.update(i, x)) == entries_view(s).update(i, x@),
{
    assert(entries_view(s.update(i, x)) =~= entries_view(s).update(i, x@));
}

/// Entry `a` comes before entry `b` when routing: lower priority value
/// first, and pool order among equal priorities.
pub open spec fn ranks_before(es: Seq<EntryView>, a: int, b: int) -> bool {
    es[a].priority < es[b].priority || (es[a].priority == es[b].priority && a < b)
}

/// `order` lists the positions of exactly the enabled entries, in routing
/// order.
pub open spec fn is_priority_order(es: Seq<EntryView>, order: Seq<int>) -> bool {
    &&& forall|k: int| 0 <= k < order.len() ==> 0 <= #[trigger] order[k] < es.len() && es[order[k]].enabled
    &&& forall|i: int| 0 <= i < es.len() && #[trigger] es[i].enabled ==> order.contains(i)
    &&& forall|k: int, l: int| 0 <= k < l < order.len() ==> ranks_before(es, #[trigger] order[k], #[trigger] order[l])
}

/// The routing order of the enabled entries (the one order that
/// `is_priority_order` admits).
pub open spec fn enabled_by_priority(es: Seq<EntryView>) -> Seq<int> {
    choose|o: Seq<int>| is_priority_order(es, o)
}

proof fn lemma_priority_prefix(es: Seq<EntryView>, o1: Seq<int>, o2: Seq<int>, n: int)
    requires
        is_priority_order(es, o1),
        is_priority_order(es, o2),
        0 <= n <= o1.len(),
        n <= o2.len(),
    ensures
        forall|k: int| 0 <= k < n ==> #[trigger] o1[k] == o2[k],
    decreases n,
{
    if n > 0 {
        lemma_priority_prefix(es, o1, o2, n - 1);
        let k = n - 1;
        let a = o1[k];
        let b = o2[k];
        if a != b {
            assert(es[a].enabled);
            assert(o2.contains(a));
            let m = choose|m: int| 0 <= m < o2.len() && o2[m] == a;
            if m < k {
                assert(o1[m] == o2[m]);
                assert(ranks_before(es, o1[m], o1[k]));
            } else {
                assert(ranks_before(es, o2[k], o2[m]));
                assert(es[b].enabled);
                assert(o1.contains(b));
                let m1 = choose|m1: int| 0 <= m1 < o1.len() && o1[m1] == b;
                if m1 < k {
                    assert(o1[m1] == o2[m1]);
                    assert(ranks_before(es, o2[m1], o2[k]));
                } else {
                    assert(ranks_before(es, o1[k], o1[m1]));
                }
            }
        }
    }
}

/// There is at most one routing order: two orders that both list exactly
/// the enabled entries, each strictly ranked, are the same.
pub proof fn law_priority_order_unique(es: Seq<EntryView>, o1: Seq<int>, o2: Seq<int>)
    requires
        is_priority_order(es, o1),
        is_priority_order(es, o2),
    ensures
        o1 == o2,
{
    if o1.len() <= o2.len() {
        lemma_priority_prefix(es, o1, o2, o1.len() as int);
        if o1.len() < o2.len() {
            let a = o2[o1.len() as int];
            assert(o1.contains(a));
            let m = choose|m: int| 0 <= m < o1.len() && o1[m] == a;
            assert(o2[m] == a);
            assert(ranks_before(es, o2[m], o2[o1.len() as int]));
        }
    } else {
        lemma_priority_prefix(es, o1, o2, o2.len() as int);
        let a = o1[o2.len() as int];
        assert(o2.contains(a));
        let m = choose|m: int| 0 <= m < o2.len() && o2[m] == a;
        assert(o1[m] == a);
        assert(ranks_before(es, o1[m], o1[o2.len() as int]));
    }
    assert(o1 =~= o2);
}

/// The position at which the last entry (enabled, of priority `p`) joins
/// the routing order `o0` of the entries before it.
pub open spec fn join_position(es: Seq<EntryView>, o0: Seq<int>, p: u32) -> int {
    let f = first_index(o0, |i: int| es[i].priority > p);
    if f >= 0 {
        f
    } else {
        o0.len() as int
    }
}

proof fn lemma_order_ranks_agree(es: Seq<EntryView>)
    requires
        es.len() > 0,
    ensures
        forall|a: int, b: int|
            0 <= a < es.len() - 1 && 0 <= b < es.len() - 1 ==> ranks_before(es, a, b)
                == #[trigger] ranks_before(es.drop_last(), a, b),
{
    let es0 = es.drop_last();
    assert forall|a: int, b: int|
        0 <= a < es.len() - 1 && 0 <= b < es.len() - 1 implies ranks_before(es, a, b)
        == #[trigger] ranks_before(es0, a, b) by {
        assert(es[a] == es0[a] && es[b] == es0[b]);
    }
}

proof fn lemma_order_last_disabled(es: Seq<EntryView>, o0: Seq<int>)
    requires
        es.len() > 0,
        !es.last().enabled,
        is_priority_order(es.drop_last(), o0),
    ensures
        is_priority_order(es, o0),
{
    let es0 = es.drop_last();
    lemma_order_ranks_agree(es);
    assert forall|k: int, l: int| 0 <= k < l < o0.len() implies ranks_before(
        es,
        #[trigger] o0[k],
        #[trigger] o0[l],
    ) by {
        assert(ranks_before(es0, o0[k], o0[l]));
    }
    assert forall|k: int| 0 <= k < o0.len() implies 0 <= #[trigger] o0[k] < es.len() && es[o0[k]].enabled by {
        assert(es0[o0[k]] == es[o0[k]]);
    }
    assert forall|i: int| 0 <= i < es.len() && #[trigger] es[i].enabled implies o0.contains(i) by {
        assert(es0[i] == es[i]);
    }
}

#[verifier::rlimit(30)]
proof fn lemma_order_last_enabled(es: Seq<EntryView>, o0: Seq<int>)
    requires
        es.len() > 0,
        es.last().enabled,
        is_priority_order(es.drop_last(), o0),
    ensures
        is_priority_order(es, o0.insert(join_position(es, o0, es.last().priority), es.len() - 1)),
{
    let n = es.len() - 1;
    let es0 = es.drop_last();
    let p = es[n].priority;
    let pos = join_position(es, o0, p);
    lemma_first_index(o0, |i: int| es[i].priority > p);
    lemma_order_ranks_agree(es);
    let o = o0.insert(pos, n);
    assert forall|k: int| 0 <= k < o.len() implies 0 <= #[trigger] o[k] < es.len()
        && es[o[k]].enabled by {
        if k < pos {
            assert(o[k] == o0[k]);
            assert(es0[o0[k]] == es[o0[k]]);
        } else if k > pos {
            assert(o[k] == o0[k - 1]);
            assert(es0[o0[k - 1]] == es[o0[k - 1]]);
        }
    }
    assert forall|i: int| 0 <= i < es.len() && #[trigger] es[i].enabled implies o.contains(i) by {
        if i < n {
            assert(es0[i] == es[i]);
            assert(o0.contains(i));
            let t = choose|t: int| 0 <= t < o0.len() && o0[t] == i;
            if t < pos {
                assert(o[t] == i);
            } else {
                assert(o[t + 1] == i);
            }
        } else {
            assert(o[pos] == i);
        }
    }
    assert forall|k: int, l: int| 0 <= k < l < o.len() implies ranks_before(
        es,
        #[trigger] o[k],
        #[trigger] o[l],
    ) by {
        if l < pos {
            assert(o[k] == o0[k] && o[l] == o0[l]);
            assert(ranks_before(es0, o0[k], o0[l]));
        } else if l == pos {
            assert(o[k] == o0[k]);
            assert(!(es[o0[k]].priority > p));
        } else if k < pos {
            assert(o[k] == o0[k] && o[l] == o0[l - 1]);
            assert(ranks_before(es0, o0[k], o0[l - 1]));
        } else if k == pos {
            assert(o[l] == o0[l - 1]);
            assert(es[o0[pos]].priority > p);
            if l - 1 > pos {
                assert(ranks_before(es0, o0[pos], o0[l - 1]));
            }
        } else {
            assert(o[k] == o0[k - 1] && o[l] == o0[l - 1]);
            assert(ranks_before(es0, o0[k - 1], o0[l - 1]));
        }
    }
}

/// Every pool has a routing order.
pub proof fn lemma_priority_order_exists(es: Seq<EntryView>)
    ensures
        is_priority_order(es, enabled_by_priority(es)),
    decreases es.len(),
{
    if es.len() == 0 {
        assert(is_priority_order(es, Seq::<int>::empty()));
    } else {
        let es0 = es.drop_last();
        lemma_priority_order_exists(es0);
        let o0 = enabled_by_priority(es0);
        if !es.last().enabled {
            lemma_order_last_disabled(es, o0);
        } else {
            lemma_order_last_enabled(es, o0);
        }
    }
}

pub open spec fn usizes_as_ints(s: Seq<usize>) -> Seq<int> {
    s.map_values(|x: usize| x as int)
}

/// Entries of the built-in provider, which `init_builtins` replaces.
pub open spec fn is_opencode(e: EntryView) -> bool {
    e.provider_type == "opencode"@
}

/// The entries that do not belong to the built-in provider, in pool order.
pub open spec fn keep_custom(es: Seq<EntryView>) -> Seq<EntryView>
    decreases es.len(),
{
    if es.len() == 0 {
        Seq::empty()
    } else {
        let r = keep_custom(es.drop_last());
        if is_opencode(es.last()) {
            r
        } else {
            r.push(es.last())
        }
    }
}

/// The id of the built-in entry for a model name.
pub open spec fn builtin_id(name: Seq<char>) -> Seq<char> {
    "opencode-"@ + name
}

/// The built-in entry for the model name at position `i` of the list.
pub open spec fn builtin_entry(name: Seq<char>, i: int) -> EntryView {
    EntryView {
        id: builtin_id(name),
        name: name,
        base_url: Seq::empty(),
        api_key: Seq::empty(),
        model_name: name,
        priority: (i + 1) as u32,
        enabled: true,
        builtin: true,
        provider_type: "opencode"@,
        api_format: "openai"@,
    }
}

/// The built-in entries for `names`, skipping those whose id was deleted.
pub open spec fn builtin_entries(names: Seq<Seq<char>>, deleted: Seq<Seq<char>>) -> Seq<EntryView>
    decreases names.len(),
{
    if names.len() == 0 {
        Seq::empty()
    } else {
        let i = names.len() - 1;
        let r = builtin_entries(names.drop_last(), deleted);
        if deleted.contains(builtin_id(names[i])) {
            r
        } else {
            r.push(builtin_entry(names[i], i))
        }
    }
}

pub open spec fn strs_view(s: Seq<&str>) -> Seq<Seq<char>> {
    s.map_values(|x: &str| x@)
}

/// The renames of built-in model ids made upstream, oldest first, as
/// (old id, new id).
pub open spec fn builtin_renames() -> Seq<(Seq<char>, Seq<char>)> {
    seq![("opencode-nemotron-3-super-free"@, "opencode-nemotron-3-ultra-free"@)]
}

/// `id` without the built-in prefix, when it has it.
pub open spec fn strip_builtin_prefix(id: Seq<char>) -> Seq<char> {
    let p = "opencode-"@;
    if id.len() >= p.len() && id.subrange(0, p.len() as int) == p {
        id.subrange(p.len() as int, id.len() as int)
    } else {
        id
    }
}

/// The predicate "equals `s`".
pub open spec fn equals(s: Seq<char>) -> spec_fn(Seq<char>) -> bool {
    |x: Seq<char>| x == s
}

/// An entry after the renames `rs`, applied in order.
pub open spec fn renamed_entry(e: EntryView, rs: Seq<(Seq<char>, Seq<char>)>) -> EntryView
    decreases rs.len(),
{
    if rs.len() == 0 {
        e
    } else {
        let e2 = renamed_entry(e, rs.drop_last());
        let (old_id, new_id) = rs.last();
        if e2.id == old_id {
            EntryView {
                id: new_id,
                name: strip_builtin_prefix(new_id),
                model_name: strip_builtin_prefix(new_id),
                ..e2
            }
        } else {
            e2
        }
    }
}

/// The deleted ids after the renames `rs`, applied in order: an old id is
/// replaced by its new one, which is recorded once.
pub open spec fn renamed_deleted(d: Seq<Seq<char>>, rs: Seq<(Seq<char>, Seq<char>)>) -> Seq<
    Seq<char>,
>
    decreases rs.len(),
{
    if rs.len() == 0 {
        d
    } else {
        let d2 = renamed_deleted(d, rs.drop_last());
        let (old_id, new_id) = rs.last();
        let p = first_index(d2, equals(old_id));
        if p >= 0 {
            let d3 = d2.remove(p);
            if d3.contains(new_id) {
                d3
            } else {
                d3.push(new_id)
            }
        } else {
            d2
        }
    }
}

/// The entries after `upsert(e)`: the first entry with the same id is
/// replaced, or `e` is appended.
pub open spec fn upserted(es: Seq<EntryView>, e: EntryView) -> Seq<EntryView> {
    let i = id_index(es, e.id);
    if i >= 0 {
        es.update(i, e)
    } else {
        es.push(e)
    }
}

/// The deleted ids after removing entry `e` by `id`: a built-in's id is
/// recorded unless it already is.
pub open spec fn deleted_after_remove(d: Seq<Seq<char>>, e: EntryView, id: Seq<char>) -> Seq<Seq<char>> {
    if e.builtin && !d.contains(id) {
        d.push(id)
    } else {
        d
    }
}

/// The pool after `toggle_enabled(id)`.
pub open spec fn toggled(p: PoolView, id: Seq<char>) -> PoolView {
    let i = id_index(p.entries, id);
    if i >= 0 {
        PoolView {
            entries: p.entries.update(i, EntryView { enabled: !p.entries[i].enabled, ..p.entries[i] }),
            ..p
        }
    } else {
        p
    }
}

/// The entries after `init_builtins(names)` with these deleted ids.
pub open spec fn initialized(es: Seq<EntryView>, names: Seq<Seq<char>>, deleted: Seq<Seq<char>>) -> Seq<EntryView> {
    keep_custom(es) + builtin_entries(names, deleted)
}

/// The predicate "has this id".
pub open spec fn has_id(id: Seq<char>) -> spec_fn(EntryView) -> bool {
    |e: EntryView| e.id == id
}

/// The predicate "is called this, by display name or by model name".
pub open spec fn has_name(name: Seq<char>) -> spec_fn(EntryView) -> bool {
    |e: EntryView| e.name == name || e.model_name == name
}

/// The position of the first entry with this id, or -1.
pub open spec fn id_index(entries: Seq<EntryView>, id: Seq<char>) -> int {
    first_index(entries, has_id(id))
}

/// The position of the first entry with this name, or -1.
pub open spec fn name_index(entries: Seq<EntryView>, name: Seq<char>) -> int {
    first_index(entries, has_name(name))
}

/// The default API format of an entry.
pub fn default_api_format() -> (r: String)
    ensures
        r@ == "openai"@,
{
    text::owned("openai")
}

/// The default provider type of an entry.
pub fn default_provider_type() -> (r: String)
    ensures
        r@ == "opencode"@,
{
    text::owned("opencode")
}

/// Whether one of the strings equals `s`.
pub fn contains_str(v: &Vec<String>, s: &str) -> (r: bool)
    ensures
        r == strings_view(v@).contains(s@),
{
    let mut i: usize = 0;
    while i < v.len()
        invariant
            i <= v@.len(),
            forall|j: int| 0 <= j < i ==> #[trigger] v@[j]@ != s@,
        decreases v@.len() - i,
    {
        if text::str_eq(v[i].as_str(), s) {
            assert(strings_view(v@)[i as int] == s@);
            return true;
        }
        i = i + 1;
    }
    proof {
        if strings_view(v@).contains(s@) {
            let j = choose|j: int| 0 <= j < strings_view(v@).len() && strings_view(v@)[j] == s@;
            assert(v@[j]@ == s@);
        }
    }
    false
}

/// The position of the first string equal to `s`.
pub fn position_of(v: &Vec<String>, s: &str) -> (r: Option<usize>)
    ensures
        match r {
            Some(p) => p < v@.len() && p as int == first_index(strings_view(v@), equals(s@)),
            None => first_index(strings_view(v@), equals(s@)) < 0,
        },
{
    let ghost sv = strings_view(v@);
    let ghost pred = equals(s@);
    let mut i: usize = 0;
    while i < v.len()
        invariant
            i <= v@.len(),
            sv == strings_view(v@),
            pred == equals(s@),
            forall|j: int| 0 <= j < i ==> !pred(#[trigger] sv[j]),
        decreases v@.len() - i,
    {
        if text::str_eq(v[i].as_str(), s) {
            proof {
                lemma_first_index_at(sv, pred, i as int);
            }
            return Some(i);
        }
        i = i + 1;
    }
    proof {
        lemma_first_index_none(sv, pred);
    }
    None
}

/// The table of upstream renames, as (old id, new id).
fn rename_table() -> (r: Vec<(&'static str, &'static str)>)
    ensures
        r@.len() == builtin_renames().len(),
        forall|t: int| 0 <= t < r@.len() ==> (#[trigger] r@[t]).0@ == builtin_renames()[t].0 && r@[t].1@ == builtin_renames()[t].1,
{
    let mut r: Vec<(&'static str, &'static str)> = Vec::new();
    r.push(("opencode-nemotron-3-super-free", "opencode-nemotron-3-ultra-free"));
    r
}

/// `id` without the built-in prefix, when it has it.
pub fn strip_prefix_of(id: &str) -> (r: String)
    ensures
        r@ == strip_builtin_prefix(id@),
{
    let p = "opencode-";
    let plen = p.unicode_len();
    let ilen = id.unicode_len();
    if ilen >= plen && text::str_eq(id.substring_char(0, plen), p) {
        text::owned(id.substring_char(plen, ilen))
    } else {
        text::owned(id)
    }
}

impl ModelPoolEntry {
    /// A copy of the entry.
    pub fn duplicate(&self) -> (r: ModelPoolEntry)
        ensures
            r@ == self@,
    {
        ModelPoolEntry {
            id: self.id.clone(),
            name: self.name.clone(),
            base_url: self.base_url.clone(),
            api_key: self.api_key.clone(),
            model_name: self.model_name.clone(),
            priority: self.priority,
            enabled: self.enabled,
            builtin: self.builtin,
            provider_type: self.provider_type.clone(),
            api_format: self.api_format.clone(),
        }
    }
}

impl ModelPool {
    pub fn new() -> (r: ModelPool)
        ensures
            r@.pool_mode,
            r@.entries == Seq::<EntryView>::empty(),
            r@.deleted_builtins == Seq::<Seq<char>>::empty(),
    {
        let r = ModelPool { pool_mode: true, entries: Vec::new(), deleted_builtins: Vec::new() };
        assert(r@.entries =~= Seq::<EntryView>::empty());
        assert(r@.deleted_builtins =~= Seq::<Seq<char>>::empty());
        r
    }

    /// Position of the entry with this id.
    fn index_by_id(&self, id: &str) -> (r: Option<usize>)
        ensures
            match r {
                Some(i) => i as int == id_index(self@.entries, id@) && i < self.entries@.len(),
                None => id_index(self@.entries, id@) < 0,
            },
    {
        let ghost es = self@.entries;
        let mut i: usize = 0;
        while i < self.entries.len()
            invariant
                i <= self.entries@.len(),
                es == entries_view(self.entries@),
                forall|j: int| 0 <= j < i ==> !has_id(id@)(#[trigger] es[j]),
            decreases self.entries@.len() - i,
        {
            if text::str_eq(self.entries[i].id.as_str(), id) {
                proof {
                    lemma_first_index_at(es, has_id(id@), i as int);
                }
                return Some(i);
            }
            i = i + 1;
        }
        proof {
            lemma_first_index_none(es, has_id(id@));
        }
        None
    }

    /// Position of the entry called `name`.
    fn index_by_name(&self, name: &str) -> (r: Option<usize>)
        ensures
            match r {
                Some(i) => i as int == name_index(self@.entries, name@) && i
                    < self.entries@.len(),
                None => name_index(self@.entries, name@) < 0,
            },
    {
        let ghost es = self@.entries;
        let mut i: usize = 0;
        while i < self.entries.len()
            invariant
                i <= self.entries@.len(),
                es == entries_view(self.entries@),
                forall|j: int| 0 <= j < i ==> !has_name(name@)(#[trigger] es[j]),
            decreases self.entries@.len() - i,
        {
            if text::str_eq(self.entries[i].name.as_str(), name) || text::str_eq(
                self.entries[i].model_name.as_str(),
                name,
            ) {
                proof {
                    lemma_first_index_at(es, has_name(name@), i as int);
                }
                return Some(i);
            }
            i = i + 1;
        }
        proof {
            lemma_first_index_none(es, has_name(name@));
        }
        None
    }

    /// Positions of the enabled entries in routing order.
    fn priority_order(&self) -> (r: Vec<usize>)
        ensures
            is_priority_order(self@.entries, usizes_as_ints(r@)),
            usizes_as_ints(r@) == enabled_by_priority(self@.entries),
    {
        let ghost es = self@.entries;
        let mut order: Vec<usize> = Vec::new();
        let mut i: usize = 0;
        while i < self.entries.len()
            invariant
                i <= self.entries@.len(),
                es == entries_view(self.entries@),
                forall|k: int| 0 <= k < order@.len() ==> #[trigger] order@[k] < i && es[order@[k] as int].enabled,
                forall|j: int| 0 <= j < i && #[trigger] es[j].enabled ==> order@.contains(j as usize),
                forall|k: int, l: int| 0 <= k < l < order@.len() ==> ranks_before(es, #[trigger] order@[k] as int, #[trigger] order@[l] as int),
            decreases self.entries@.len() - i,
        {
            if self.entries[i].enabled {
                let p = self.entries[i].priority;
                let mut pos: usize = 0;
                while pos < order.len() && self.entries[order[pos]].priority <= p
                    invariant
                        pos <= order@.len(),
                        i < self.entries@.len(),
                        es == entries_view(self.entries@),
                        p == es[i as int].priority,
                        forall|k: int| 0 <= k < order@.len() ==> #[trigger] order@[k] < i,
                        forall|k: int| 0 <= k < pos ==> es[#[trigger] order@[k] as int].priority <= p,
                    decreases order@.len() - pos,
                {
                    pos = pos + 1;
                }
                let ghost old_order = order@;
                order.insert(pos, i);
                proof {
                    assert forall|k: int, l: int| 0 <= k < l < order@.len() implies ranks_before(
                        es,
                        #[trigger] order@[k] as int,
                        #[trigger] order@[l] as int,
                    ) by {
                        if l < pos {
                        } else if l == pos {
                            assert(order@[k] == old_order[k]);
                        } else if k < pos {
                            assert(order@[l] == old_order[l - 1]);
                        } else if k == pos {
                            assert(order@[l] == old_order[l - 1]);
                            if l - 1 > pos {
                                assert(ranks_before(es, old_order[pos as int] as int, old_order[l - 1] as int));
                            }
                        } else {
                            assert(order@[l] == old_order[l - 1]);
                            assert(order@[k] == old_order[k - 1]);
                        }
                    }
                    assert forall|j: int| 0 <= j < i + 1 && #[trigger] es[j].enabled implies order@.contains(j as usize) by {
                        if j < i {
                            let t = choose|t: int| 0 <= t < old_order.len() && old_order[t] == j as usize;
                            if t < pos {
                                assert(order@[t] == j as usize);
                            } else {
                                assert(order@[t + 1] == j as usize);
                            }
                        } else {
                            assert(order@[pos as int] == j as usize);
                        }
                    }
                    assert forall|k: int| 0 <= k < order@.len() implies #[trigger] order@[k] < i + 1 && es[order@[k] as int].enabled by {
                        if k < pos {
                            assert(order@[k] == old_order[k]);
                        } else if k > pos {
                            assert(order@[k] == old_order[k - 1]);
                        }
                    }
                }
            } else {
                proof {
                    assert forall|j: int| 0 <= j < i + 1 && #[trigger] es[j].enabled implies order@.contains(j as usize) by {
                    }
                }
            }
            i = i + 1;
        }
        proof {
            let o = usizes_as_ints(order@);
            assert forall|j: int| 0 <= j < es.len() && #[trigger] es[j].enabled implies o.contains(j) by {
                let t = choose|t: int| 0 <= t < order@.len() && order@[t] == j as usize;
                assert(o[t] == j);
            }
            assert(is_priority_order(es, o));
            law_priority_order_unique(es, o, enabled_by_priority(es));
        }
        order
    }

    /// All enabled entries, sorted by priority (ascending); entries of equal
    /// priority keep their order in the pool.
    pub fn get_enabled(&self) -> (r: Vec<&ModelPoolEntry>)
        ensures
            is_priority_order(self@.entries, enabled_by_priority(self@.entries)),
            r@.len() == enabled_by_priority(self@.entries).len(),
            forall|k: int|
                0 <= k < r@.len() ==> (#[trigger] r@[k])@ == self@.entries[enabled_by_priority(
                    self@.entries,
                )[k]],
    {
        let order = self.priority_order();
        let ghost o = usizes_as_ints(order@);
        let mut out: Vec<&ModelPoolEntry> = Vec::new();
        let mut k: usize = 0;
        while k < order.len()
            invariant
                k <= order@.len(),
                o == usizes_as_ints(order@),
                is_priority_order(self@.entries, o),
                out@.len() == k,
                forall|m: int| 0 <= m < k ==> (#[trigger] out@[m])@ == self@.entries[o[m]],
            decreases order@.len() - k,
        {
            assert(0 <= o[k as int] < self@.entries.len());
            out.push(&self.entries[order[k]]);
            k = k + 1;
        }
        out
    }

    /// Replace all entries of the built-in provider by one fresh entry per
    /// model name, in the order given (priority = position + 1), skipping
    /// the names whose id the user deleted. Other entries keep their order.
    pub fn init_builtins(&mut self, model_names: &[&str])
        ensures
            final(self)@.pool_mode == old(self)@.pool_mode,
            final(self)@.deleted_builtins == old(self)@.deleted_builtins,
            final(self)@.entries == initialized(
                old(self)@.entries,
                strs_view(model_names@),
                old(self)@.deleted_builtins,
            ),
    {
        let ghost es = old(self)@.entries;
        let ghost names = strs_view(model_names@);
        let ghost deleted = old(self)@.deleted_builtins;
        let mut kept: Vec<ModelPoolEntry> = Vec::new();
        let mut i: usize = 0;
        while i < self.entries.len()
            invariant
                i <= self.entries@.len(),
                es == entries_view(self.entries@),
                entries_view(kept@) == keep_custom(es.take(i as int)),
            decreases self.entries@.len() - i,
        {
            assert(es.take(i + 1).drop_last() =~= es.take(i as int));
            if !text::str_eq(self.entries[i].provider_type.as_str(), "opencode") {
                let e = self.entries[i].duplicate();
                kept.push(e);
                assert(entries_view(kept@) =~= keep_custom(es.take(i as int)).push(es[i as int]));
            }
            i = i + 1;
        }
        assert(es.take(es.len() as int) =~= es);
        let ghost custom = entries_view(kept@);
        let mut n: usize = 0;
        while n < model_names.len()
            invariant
                n <= model_names@.len(),
                names == strs_view(model_names@),
                deleted == strings_view(self.deleted_builtins@),
                custom == keep_custom(es),
                entries_view(kept@) == custom + builtin_entries(names.take(n as int), deleted),
            decreases model_names@.len() - n,
        {
            assert(names.take(n + 1).drop_last() =~= names.take(n as int));
            let name = model_names[n];
            let id = text::concat_strs("opencode-", name);
            if !contains_str(&self.deleted_builtins, id.as_str()) {
                let e = ModelPoolEntry {
                    id,
                    name: text::owned(name),
                    base_url: String::new(),
                    api_key: String::new(),
                    model_name: text::owned(name),
                    priority: (n + 1) as u32,
                    enabled: true,
                    builtin: true,
                    provider_type: text::owned("opencode"),
                    api_format: text::owned("openai"),
                };
                let ghost before = entries_view(kept@);
                kept.push(e);
                assert(names.take(n + 1)[n as int] == names[n as int]);
                assert(e@ == builtin_entry(names[n as int], n as int));
                assert(!deleted.contains(builtin_id(names.take(n + 1)[n as int])));
                assert(builtin_entries(names.take(n + 1), deleted) == builtin_entries(names.take(n as int), deleted).push(e@));
                assert(entries_view(kept@) =~= before.push(e@));
                assert(entries_view(kept@) =~= custom + builtin_entries(names.take(n + 1), deleted));
            } else {
                assert(names.take(n + 1)[n as int] == names[n as int]);
                assert(id@ == builtin_id(names[n as int]));
                assert(deleted.contains(builtin_id(names.take(n + 1)[n as int])));
                assert(builtin_entries(names.take(n + 1), deleted) == builtin_entries(names.take(n as int), deleted));
            }
            n = n + 1;
        }
        assert(names.take(names.len() as int) =~= names);
        self.entries = kept;
    }

    /// Bring built-in entries and deleted ids up to date after upstream
    /// renames; call this before `init_builtins` so that deleted ids refer
    /// to the current model ids.
    pub fn migrate_renamed_builtins(&mut self)
        ensures
            final(self)@.pool_mode == old(self)@.pool_mode,
            final(self)@.entries == old(self)@.entries.map_values(
                |e: EntryView| renamed_entry(e, builtin_renames()),
            ),
            final(self)@.deleted_builtins == renamed_deleted(
                old(self)@.deleted_builtins,
                builtin_renames(),
            ),
    {
        broadcast use lemma_entries_view_update;

        let table = rename_table();
        let ghost rs = builtin_renames();
        let ghost es = old(self)@.entries;
        let mut i: usize = 0;
        while i < self.entries.len()
            invariant
                i <= self.entries@.len(),
                self.entries@.len() == es.len(),
                self.pool_mode == old(self).pool_mode,
                self.deleted_builtins@ == old(self).deleted_builtins@,
                rs == builtin_renames(),
                table@.len() == rs.len(),
                forall|t: int| 0 <= t < rs.len() ==> (#[trigger] table@[t]).0@ == rs[t].0 && table@[t].1@ == rs[t].1,
                forall|j: int| 0 <= j < i ==> #[trigger] self@.entries[j] == renamed_entry(es[j], rs),
                forall|j: int| i <= j < es.len() ==> #[trigger] self@.entries[j] == es[j],
            decreases self.entries@.len() - i,
        {
            let mut t: usize = 0;
            while t < table.len()
                invariant
                    i < self.entries@.len(),
                    i < es.len(),
                    t <= table@.len(),
                    self.entries@.len() == es.len(),
                    self.pool_mode == old(self).pool_mode,
                    self.deleted_builtins@ == old(self).deleted_builtins@,
                    table@.len() == rs.len(),
                    forall|u: int| 0 <= u < rs.len() ==> (#[trigger] table@[u]).0@ == rs[u].0 && table@[u].1@ == rs[u].1,
                    self@.entries[i as int] == renamed_entry(es[i as int], rs.take(t as int)),
                    forall|j: int| 0 <= j < es.len() && j != i ==> #[trigger] self@.entries[j] == (if j < i {
                        renamed_entry(es[j], rs)
                    } else {
                        es[j]
                    }),
                decreases table@.len() - t,
            {
                assert(rs.take(t + 1).drop_last() =~= rs.take(t as int));
                let (old_id, new_id) = table[t];
                if text::str_eq(self.entries[i].id.as_str(), old_id) {
                    let new_name = strip_prefix_of(new_id);
                    let mut e = self.entries[i].duplicate();
                    e.id = text::owned(new_id);
                    e.name = text::copy_string(&new_name);
                    e.model_name = new_name;
                    let ghost before = self@.entries;
                    let ghost ev = e@;
                    self.entries.set(i, e);
                    assert(self@.entries == before.update(i as int, ev));
                }
                t = t + 1;
            }
            assert(rs.take(rs.len() as int) =~= rs);
            i = i + 1;
        }
        assert(self@.entries =~= es.map_values(|e: EntryView| renamed_entry(e, rs)));
        let mut t: usize = 0;
        while t < table.len()
            invariant
                t <= table@.len(),
                table@.len() == rs.len(),
                rs == builtin_renames(),
                forall|u: int| 0 <= u < rs.len() ==> (#[trigger] table@[u]).0@ == rs[u].0 && table@[u].1@ == rs[u].1,
                self@.entries == es.map_values(|e: EntryView| renamed_entry(e, rs)),
                self.pool_mode == old(self).pool_mode,
                self@.deleted_builtins == renamed_deleted(old(self)@.deleted_builtins, rs.take(t as int)),
            decreases table@.len() - t,
        {
            assert(rs.take(t + 1).drop_last() =~= rs.take(t as int));
            let (old_id, new_id) = table[t];
            let ghost d2 = self@.deleted_builtins;
            match position_of(&self.deleted_builtins, old_id) {
                Some(pos) => {
                    self.deleted_builtins.remove(pos);
                    assert(self@.deleted_builtins =~= d2.remove(pos as int));
                    if !contains_str(&self.deleted_builtins, new_id) {
                        let ghost d3 = self@.deleted_builtins;
                        self.deleted_builtins.push(text::owned(new_id));
                        assert(self@.deleted_builtins =~= d3.push(new_id@));
                    }
                },
                None => {},
            }
            t = t + 1;
        }
        assert(rs.take(rs.len() as int) =~= rs);
    }

    /// Find entry by ID.
    pub fn get_by_id(&self, id: &str) -> (r: Option<&ModelPoolEntry>)
        ensures
            match r {
                Some(e) => id_index(self@.entries, id@) >= 0 && e@ == self@.entries[id_index(
                    self@.entries,
                    id@,
                )],
                None => id_index(self@.entries, id@) < 0,
            },
    {
        match self.index_by_id(id) {
            Some(i) => Some(&self.entries[i]),
            None => None,
        }
    }

    /// Find entry by model name (for mapping a request's model to a pool
    /// entry): the first entry whose display name or model name matches.
    pub fn get_by_name(&self, name: &str) -> (r: Option<&ModelPoolEntry>)
        ensures
            match r {
                Some(e) => name_index(self@.entries, name@) >= 0 && e@ == self@.entries[name_index(
                    self@.entries,
                    name@,
                )],
                None => name_index(self@.entries, name@) < 0,
            },
    {
        match self.index_by_name(name) {
            Some(i) => Some(&self.entries[i]),
            None => None,
        }
    }

    /// Find the entry with this ID for editing in place.
    pub fn get_by_id_mut(&mut self, id: &str) -> (r: Option<&mut ModelPoolEntry>)
        ensures
            match r {
                Some(e) => {
                    &&& id_index(old(self)@.entries, id@) >= 0
                    &&& e@ == old(self)@.entries[id_index(old(self)@.entries, id@)]
                    &&& final(self)@ == PoolView {
                        entries: old(self)@.entries.update(
                            id_index(old(self)@.entries, id@),
                            final(e)@,
                        ),
                        ..old(self)@
                    }
                },
                None => id_index(old(self)@.entries, id@) < 0 && final(self)@ == old(self)@,
            },
    {
        broadcast use lemma_entries_view_update;

        match self.index_by_id(id) {
            Some(i) => Some(&mut self.entries[i]),
            None => None,
        }
    }

    /// Toggle enable/disable for an entry; returns the new state, or false
    /// when no entry has this id.
    pub fn toggle_enabled(&mut self, id: &str) -> (r: bool)
        ensures
            final(self)@ == toggled(old(self)@, id@),
            r == (id_index(old(self)@.entries, id@) >= 0 && !old(self)@.entries[id_index(
                old(self)@.entries,
                id@,
            )].enabled),
    {
        match self.index_by_id(id) {
            Some(i) => {
                let flipped = !self.entries[i].enabled;
                self.entries[i].enabled = flipped;
                proof {
                    assert(self@.entries =~= old(self)@.entries.update(
                        i as int,
                        EntryView { enabled: flipped, ..old(self)@.entries[i as int] },
                    ));
                }
                flipped
            },
            None => false,
        }
    }

    /// Set priority for an entry (nothing happens when no entry has this id).
    pub fn set_priority(&mut self, id: &str, priority: u32)
        ensures
            ({
                let i = id_index(old(self)@.entries, id@);
                if i >= 0 {
                    final(self)@ == PoolView {
                        entries: old(self)@.entries.update(
                            i,
                            EntryView { priority: priority, ..old(self)@.entries[i] },
                        ),
                        ..old(self)@
                    }
                } else {
                    final(self)@ == old(self)@
                }
            }),
    {
        match self.index_by_id(id) {
            Some(i) => {
                self.entries[i].priority = priority;
                proof {
                    assert(self@.entries =~= old(self)@.entries.update(
                        i as int,
                        EntryView { priority: priority, ..old(self)@.entries[i as int] },
                    ));
                }
            },
            None => {},
        }
    }

    /// Remove an entry by ID and return it. A removed built-in has its ID
    /// recorded (once) so that `init_builtins` does not re-create it.
    pub fn remove(&mut self, id: &str) -> (r: Option<ModelPoolEntry>)
        ensures
            ({
                let i = id_index(old(self)@.entries, id@);
                if i >= 0 {
                    let e = old(self)@.entries[i];
                    &&& r is Some && r->0@ == e
                    &&& final(self)@.pool_mode == old(self)@.pool_mode
                    &&& final(self)@.entries == old(self)@.entries.remove(i)
                    &&& final(self)@.deleted_builtins == deleted_after_remove(
                        old(self)@.deleted_builtins,
                        e,
                        id@,
                    )
                } else {
                    r is None && final(self)@ == old(self)@
                }
            }),
    {
        match self.index_by_id(id) {
            Some(i) => {
                let ghost before = self.entries@;
                proof {
                    lemma_first_index(old(self)@.entries, has_id(id@));
                }
                let entry = self.entries.remove(i);
                assert(self@.entries =~= old(self)@.entries.remove(i as int)) by {
                    assert(self.entries@ == before.remove(i as int));
                }
                if entry.builtin {
                    if !contains_str(&self.deleted_builtins, entry.id.as_str()) {
                        self.deleted_builtins.push(entry.id.clone());
                        assert(self@.deleted_builtins =~= old(self)@.deleted_builtins.push(id@));
                    }
                }
                Some(entry)
            },
            None => None,
        }
    }

    /// Add an entry, or replace the first entry with the same id.
    pub fn upsert(&mut self, entry: ModelPoolEntry)
        ensures
            final(self)@.pool_mode == old(self)@.pool_mode,
            final(self)@.deleted_builtins == old(self)@.deleted_builtins,
            final(self)@.entries == upserted(old(self)@.entries, entry@),
    {
        let ghost e = entry@;
        match self.index_by_id(entry.id.as_str()) {
            Some(i) => {
                self.entries.set(i, entry);
                assert(self@.entries =~= old(self)@.entries.update(i as int, e));
            },
            None => {
                self.entries.push(entry);
                assert(self@.entries =~= old(self)@.entries.push(e));
            },
        }
    }
}

} // verus!
