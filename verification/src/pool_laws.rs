//! Properties of the model pool that relate several operations.
use vstd::prelude::*;
use crate::model_pool::{
    builtin_entries, builtin_entry, builtin_id, deleted_after_remove, has_id, id_index,
    initialized, is_opencode, keep_custom, toggled, upserted, EntryView, PoolView,
    builtin_renames, renamed_deleted, renamed_entry, equals,
};
use crate::seqs::{first_index, lemma_first_index, lemma_first_index_at, lemma_first_index_none};

verus! {

/// After `upsert(e)`, looking up `e`'s id finds exactly `e`.
pub proof fn law_upsert_then_get(es: Seq<EntryView>, e: EntryView)
    ensures
        id_index(upserted(es, e), e.id) >= 0,
        upserted(es, e)[id_index(upserted(es, e), e.id)] == e,
{
    lemma_first_index(es, has_id(e.id));
    let r = upserted(es, e);
    let i = id_index(es, e.id);
    if i >= 0 {
        assert forall|j: int| 0 <= j < i implies !has_id(e.id)(#[trigger] r[j]) by {
            assert(r[j] == es[j]);
        }
        lemma_first_index_at(r, has_id(e.id), i);
    } else {
        assert forall|j: int| 0 <= j < es.len() implies !has_id(e.id)(#[trigger] r[j]) by {
            assert(r[j] == es[j]);
        }
        lemma_first_index_at(r, has_id(e.id), es.len() as int);
    }
}

/// Toggling the same entry twice leaves the pool as it was.
pub proof fn law_toggle_twice(p: PoolView, id: Seq<char>)
    ensures
        toggled(toggled(p, id), id) == p,
{
    lemma_first_index(p.entries, has_id(id));
    let i = id_index(p.entries, id);
    if i >= 0 {
        let p1 = toggled(p, id);
        assert forall|j: int| 0 <= j < i implies !has_id(id)(#[trigger] p1.entries[j]) by {
            assert(p1.entries[j] == p.entries[j]);
        }
        lemma_first_index_at(p1.entries, has_id(id), i);
        let p2 = toggled(p1, id);
        assert(p2.entries =~= p.entries);
    }
}

/// Removing an entry keeps the list of deleted built-in ids free of
/// duplicates, and a removed built-in's id is on it afterwards.
pub proof fn law_remove_records_builtin_once(d: Seq<Seq<char>>, e: EntryView, id: Seq<char>)
    requires
        d.no_duplicates(),
    ensures
        deleted_after_remove(d, e, id).no_duplicates(),
        e.builtin ==> deleted_after_remove(d, e, id).contains(id),
{
    let r = deleted_after_remove(d, e, id);
    if e.builtin && !d.contains(id) {
        assert forall|i: int, j: int| 0 <= i < r.len() && 0 <= j < r.len() && i != j implies r[i]
            != r[j] by {
            if i == d.len() {
                assert(r[j] == d[j]);
                if r[i] == r[j] {
                    assert(d.contains(id));
                }
            } else if j == d.len() {
                assert(r[i] == d[i]);
                if r[i] == r[j] {
                    assert(d.contains(id));
                }
            }
        }
        assert(r[d.len() as int] == id);
    }
}

proof fn lemma_keep_custom_append(a: Seq<EntryView>, b: Seq<EntryView>)
    ensures
        keep_custom(a + b) == keep_custom(a) + keep_custom(b),
    decreases b.len(),
{
    if b.len() == 0 {
        assert(a + b =~= a);
        assert(keep_custom(a) + keep_custom(b) =~= keep_custom(a));
    } else {
        lemma_keep_custom_append(a, b.drop_last());
        assert((a + b).drop_last() =~= a + b.drop_last());
        assert((a + b).last() == b.last());
        if !is_opencode(b.last()) {
            assert(keep_custom(a) + keep_custom(b) =~= (keep_custom(a) + keep_custom(
                b.drop_last(),
            )).push(b.last()));
        }
    }
}

proof fn lemma_keep_custom_all_custom(a: Seq<EntryView>)
    ensures
        forall|k: int| 0 <= k < keep_custom(a).len() ==> !is_opencode(#[trigger] keep_custom(a)[k]),
        keep_custom(keep_custom(a)) == keep_custom(a),
    decreases a.len(),
{
    if a.len() > 0 {
        lemma_keep_custom_all_custom(a.drop_last());
        let r = keep_custom(a.drop_last());
        if !is_opencode(a.last()) {
            assert(keep_custom(a).drop_last() =~= r);
        }
    }
}

proof fn lemma_builtin_entries_props(names: Seq<Seq<char>>, deleted: Seq<Seq<char>>)
    ensures
        keep_custom(builtin_entries(names, deleted)) == Seq::<EntryView>::empty(),
        forall|k: int|
            0 <= k < builtin_entries(names, deleted).len() ==> !deleted.contains(
                (#[trigger] builtin_entries(names, deleted)[k]).id,
            ),
    decreases names.len(),
{
    if names.len() > 0 {
        lemma_builtin_entries_props(names.drop_last(), deleted);
        let r = builtin_entries(names.drop_last(), deleted);
        let i = names.len() - 1;
        if !deleted.contains(builtin_id(names[i])) {
            let e = builtin_entry(names[i], i);
            assert(builtin_entries(names, deleted).drop_last() =~= r);
            assert(is_opencode(e));
        }
    }
}

/// Running `init_builtins` twice with the same model names gives the same
/// entries as running it once.
pub proof fn law_init_builtins_idempotent(
    es: Seq<EntryView>,
    names: Seq<Seq<char>>,
    deleted: Seq<Seq<char>>,
)
    ensures
        initialized(initialized(es, names, deleted), names, deleted) == initialized(
            es,
            names,
            deleted,
        ),
{
    let b = builtin_entries(names, deleted);
    lemma_keep_custom_append(keep_custom(es), b);
    lemma_keep_custom_all_custom(es);
    lemma_builtin_entries_props(names, deleted);
    assert(keep_custom(keep_custom(es)) + keep_custom(b) =~= keep_custom(es));
}

/// After `init_builtins`, no entry of the built-in provider carries an id
/// that the user deleted, and every other entry of before is kept, in order.
pub proof fn law_init_builtins_respects_deletions(
    es: Seq<EntryView>,
    names: Seq<Seq<char>>,
    deleted: Seq<Seq<char>>,
)
    ensures
        forall|k: int|
            0 <= k < initialized(es, names, deleted).len() && is_opencode(
                #[trigger] initialized(es, names, deleted)[k],
            ) ==> !deleted.contains(initialized(es, names, deleted)[k].id),
        initialized(es, names, deleted).subrange(0, keep_custom(es).len() as int)
            == keep_custom(es),
{
    lemma_keep_custom_all_custom(es);
    lemma_builtin_entries_props(names, deleted);
    let r = initialized(es, names, deleted);
    let c = keep_custom(es);
    let b = builtin_entries(names, deleted);
    assert forall|k: int| 0 <= k < r.len() && is_opencode(#[trigger] r[k]) implies !deleted.contains(
        r[k].id,
    ) by {
        if k < c.len() {
            assert(r[k] == c[k]);
        } else {
            assert(r[k] == b[k - c.len()]);
        }
    }
    assert(r.subrange(0, c.len() as int) =~= c);
}

/// Migrating the renamed built-ins a second time changes nothing: the
/// entries and the deleted ids stay as the first migration left them
/// (given that the deleted ids hold each renamed old id at most once).
pub proof fn law_migrate_idempotent(es: Seq<EntryView>, d: Seq<Seq<char>>)
    requires
        forall|i: int, j: int|
            0 <= i < d.len() && 0 <= j < d.len() && d[i] == builtin_renames()[0].0 && d[j]
                == builtin_renames()[0].0 ==> i == j,
    ensures
        es.map_values(|e: EntryView| renamed_entry(e, builtin_renames())).map_values(
            |e: EntryView| renamed_entry(e, builtin_renames()),
        ) == es.map_values(|e: EntryView| renamed_entry(e, builtin_renames())),
        renamed_deleted(renamed_deleted(d, builtin_renames()), builtin_renames()) == renamed_deleted(
            d,
            builtin_renames(),
        ),
{
    let rs = builtin_renames();
    reveal_strlit("opencode-nemotron-3-super-free");
    reveal_strlit("opencode-nemotron-3-ultra-free");
    let old_id = rs[0].0;
    let new_id = rs[0].1;
    assert(rs.drop_last() =~= Seq::<(Seq<char>, Seq<char>)>::empty());
    assert(old_id != new_id) by {
        assert(old_id[20] != new_id[20]);
    }
    let once = es.map_values(|e: EntryView| renamed_entry(e, rs));
    assert forall|i: int| 0 <= i < once.len() implies #[trigger] renamed_entry(once[i], rs) == once[i] by {
        assert(renamed_entry(es[i], rs.drop_last()) == es[i]);
        assert(renamed_entry(once[i], rs.drop_last()) == once[i]);
    }
    assert(once.map_values(|e: EntryView| renamed_entry(e, rs)) =~= once);
    let d1 = renamed_deleted(d, rs);
    assert(renamed_deleted(d, rs.drop_last()) == d);
    assert(renamed_deleted(d1, rs.drop_last()) == d1);
    lemma_first_index(d, equals(old_id));
    let p = first_index(d, equals(old_id));
    if p >= 0 {
        let d3 = d.remove(p);
        assert forall|j: int| 0 <= j < d3.len() implies !equals(old_id)(#[trigger] d3[j]) by {
            if j < p {
                assert(d3[j] == d[j]);
                if d[j] == old_id {
                    assert(j == p);
                }
            } else {
                assert(d3[j] == d[j + 1]);
                if d[j + 1] == old_id {
                    assert(j + 1 == p);
                }
            }
        }
        if d3.contains(new_id) {
            assert(d1 == d3);
        } else {
            assert(d1 == d3.push(new_id));
            assert forall|j: int| 0 <= j < d1.len() implies !equals(old_id)(#[trigger] d1[j]) by {
                if j < d3.len() {
                    assert(d1[j] == d3[j]);
                }
            }
        }
        lemma_first_index_none(d1, equals(old_id));
    } else {
        assert(d1 == d);
    }
}

proof fn lemma_builtin_entries_fields(names: Seq<Seq<char>>, deleted: Seq<Seq<char>>)
    ensures
        forall|j: int|
            0 <= j < builtin_entries(names, deleted).len() ==> exists|k: int|
                0 <= k < names.len() && #[trigger] builtin_entries(names, deleted)[j]
                    == builtin_entry(names[k], k) && !deleted.contains(builtin_id(names[k])),
        forall|k: int|
            0 <= k < names.len() && !deleted.contains(builtin_id(names[k])) ==> exists|j: int|
                0 <= j < builtin_entries(names, deleted).len() && builtin_entries(names, deleted)[j]
                    == builtin_entry(#[trigger] names[k], k),
    decreases names.len(),
{
    if names.len() > 0 {
        let p = names.drop_last();
        lemma_builtin_entries_fields(p, deleted);
        let r = builtin_entries(p, deleted);
        let b = builtin_entries(names, deleted);
        let n = names.len() - 1;
        assert forall|j: int| 0 <= j < b.len() implies exists|k: int|
            0 <= k < names.len() && #[trigger] b[j] == builtin_entry(names[k], k)
                && !deleted.contains(builtin_id(names[k])) by {
            if j < r.len() {
                assert(b[j] == r[j]);
                let k = choose|k: int|
                    0 <= k < p.len() && #[trigger] r[j] == builtin_entry(p[k], k) && !deleted.contains(
                        builtin_id(p[k]),
                    );
                assert(names[k] == p[k]);
            } else {
                assert(b[j] == builtin_entry(names[n], n));
            }
        }
        assert forall|k: int| 0 <= k < names.len() && !deleted.contains(builtin_id(names[k])) implies exists|j: int|
            0 <= j < b.len() && b[j] == builtin_entry(#[trigger] names[k], k) by {
            if k < n {
                assert(names[k] == p[k]);
                let j = choose|j: int| 0 <= j < r.len() && r[j] == builtin_entry(#[trigger] p[k], k);
                assert(b[j] == r[j]);
            } else {
                assert(b[r.len() as int] == builtin_entry(names[n], n));
            }
        }
    }
}

/// `e` is the entry of a listed model name `n` whose id `opencode-n` was
/// not deleted: its id is `opencode-n`, it is named `n` and sent upstream
/// as `n`, and it is enabled, built in and has no custom provider.
pub open spec fn entry_of_listed_name(e: EntryView, names: Seq<Seq<char>>, deleted: Seq<Seq<char>>) -> bool {
    exists|k: int|
        0 <= k < names.len() && e.id == "opencode-"@ + #[trigger] names[k] && e.name == names[k]
            && e.model_name == names[k] && e.enabled && e.builtin && e.base_url.len() == 0
            && !deleted.contains("opencode-"@ + names[k])
}

/// After `init_builtins(names)` the pool is its custom entries followed by
/// built-in entries: each of these is the entry of some listed model name
/// `n` whose id `opencode-n` was not deleted, named `n`, sent upstream as
/// `n`, enabled, built in and with no custom provider; and every listed
/// name whose id was not deleted has such an entry.
pub proof fn law_init_builtins_names_entries(
    es: Seq<EntryView>,
    names: Seq<Seq<char>>,
    deleted: Seq<Seq<char>>,
)
    ensures
        forall|j: int|
            keep_custom(es).len() <= j < initialized(es, names, deleted).len() ==> #[trigger] entry_of_listed_name(
                initialized(es, names, deleted)[j],
                names,
                deleted,
            ),
        forall|k: int|
            0 <= k < names.len() && !deleted.contains("opencode-"@ + #[trigger] names[k]) ==> exists|j: int|
                keep_custom(es).len() <= j < initialized(es, names, deleted).len()
                    && initialized(es, names, deleted)[j].id == "opencode-"@ + names[k]
                    && initialized(es, names, deleted)[j].name == names[k]
                    && initialized(es, names, deleted)[j].model_name == names[k],
{
    lemma_builtin_entries_fields(names, deleted);
    let c = keep_custom(es);
    let b = builtin_entries(names, deleted);
    let r = initialized(es, names, deleted);
    assert forall|j: int| c.len() <= j < r.len() implies #[trigger] entry_of_listed_name(
        r[j],
        names,
        deleted,
    ) by {
        assert(r[j] == b[j - c.len()]);
        let k = choose|k: int|
            0 <= k < names.len() && #[trigger] b[j - c.len()] == builtin_entry(names[k], k)
                && !deleted.contains(builtin_id(names[k]));
        assert(r[j] == builtin_entry(names[k], k));
    }
    assert forall|k: int| 0 <= k < names.len() && !deleted.contains("opencode-"@ + #[trigger] names[k]) implies exists|j: int|
        c.len() <= j < r.len() && r[j].id == "opencode-"@ + names[k] && r[j].name == names[k]
            && r[j].model_name == names[k] by {
        assert(!deleted.contains(builtin_id(names[k])));
        let j = choose|j: int| 0 <= j < b.len() && b[j] == builtin_entry(#[trigger] names[k], k);
        assert(r[c.len() + j] == b[j]);
    }
}

} // verus!
