use vstd::prelude::*;
use crate::expr::eval;
use crate::search::{lemma_first_where_exists, lemma_unique_index};
use crate::settings::{
    DraftModel, NodeModel, PresetEntry, PresetHandle, SettingGroup, SettingGroupBuilder,
    SettingHandle, apply_entry, bad_predicate_at, bit_index_spec, build_error, build_model,
    evaluate_spec, expand, expand_all, group_item_names, item_names, lemma_expand_all_shape,
    lemma_compile_all_index, lemma_expand_len, predicate_trees, compile_all, preset_entries,
    resolve,
};

verus! {

/// Two builds of the same declarations yield the same descriptor: the same
/// bit indices, the same compiled predicates and the same preset values.
pub proof fn lemma_build_deterministic(
    b1: SettingGroupBuilder,
    b2: SettingGroupBuilder,
    g1: SettingGroup,
    g2: SettingGroup,
)
    requires
        b1@ == b2@,
        g1@ == build_model(b1@),
        g2@ == build_model(b2@),
    ensures
        g1@ == g2@,
        build_error(b1@) == build_error(b2@),
{
}

/// After a successful build, predicate `i` is found under its own name and
/// evaluates its tree, compiled against the predicates before it.
pub proof fn lemma_evaluate_predicate(d: DraftModel, i: int, bits: Seq<bool>, parent_bits: Seq<bool>)
    requires
        build_error(d) is None,
        0 <= i < d.predicates.len(),
    ensures
        evaluate_spec(build_model(d), d.predicates[i].0, bits, parent_bits)
            == Some(eval(resolve(d.predicates[i].1, d.parent, compile_all(predicate_trees(d), d.parent).take(i)), bits, parent_bits)),
{
    lemma_compile_all_index(predicate_trees(d), d.parent, i);
    let g = build_model(d);
    assert(group_item_names(g) =~= item_names(d));
    let j = d.settings.len() + i;
    assert(item_names(d)[j] == d.predicates[i].0);
    lemma_unique_index(item_names(d), j);
}

/// A predicate that is one unnegated setting reads that setting's bit, and
/// the setting's name gives that bit's index.
pub proof fn lemma_simple_predicate_alias(
    d: DraftModel,
    i: int,
    h: SettingHandle,
    bits: Seq<bool>,
    parent_bits: Seq<bool>,
)
    requires
        build_error(d) is None,
        0 <= i < d.predicates.len(),
        d.predicates[i].1 == NodeModel::Local(h.index as nat),
    ensures
        h.index < d.settings.len(),
        bit_index_spec(build_model(d), d.settings[h.index as int].0) == Some(h.index as int),
        evaluate_spec(build_model(d), d.predicates[i].0, bits, parent_bits) == Some(bits[h.index as int]),
        build_model(d).predicates[i].2 is Some,
{
    lemma_evaluate_predicate(d, i, bits, parent_bits);
    let g = build_model(d);
    assert(group_item_names(g) =~= item_names(d));
    if bad_predicate_at(d)(i) {
        assert(bad_predicate_at(d)(i));
        lemma_first_where_exists(d.predicates.len(), bad_predicate_at(d), i);
    }
    assert(item_names(d)[h.index as int] == d.settings[h.index as int].0);
    lemma_compile_all_index(predicate_trees(d), d.parent, i);
    lemma_unique_index(item_names(d), h.index as int);
}

/// Conjunction, disjunction and negation of settings evaluate by the usual
/// boolean rules.
pub proof fn lemma_composite_semantics(
    d: DraftModel,
    i: int,
    a: SettingHandle,
    b: SettingHandle,
    bits: Seq<bool>,
    parent_bits: Seq<bool>,
)
    requires
        build_error(d) is None,
        0 <= i < d.predicates.len(),
    ensures
        d.predicates[i].1 == NodeModel::And(
            Box::new(NodeModel::Local(a.index as nat)),
            Box::new(NodeModel::Local(b.index as nat)),
        ) ==> evaluate_spec(build_model(d), d.predicates[i].0, bits, parent_bits)
            == Some(bits[a.index as int] && bits[b.index as int]),
        d.predicates[i].1 == NodeModel::Or(
            Box::new(NodeModel::Local(a.index as nat)),
            Box::new(NodeModel::Local(b.index as nat)),
        ) ==> evaluate_spec(build_model(d), d.predicates[i].0, bits, parent_bits)
            == Some(bits[a.index as int] || bits[b.index as int]),
        d.predicates[i].1 == NodeModel::Not(Box::new(NodeModel::Local(a.index as nat)))
            ==> evaluate_spec(build_model(d), d.predicates[i].0, bits, parent_bits)
            == Some(!bits[a.index as int]),
{
    lemma_evaluate_predicate(d, i, bits, parent_bits);
    reveal_with_fuel(resolve, 2);
    reveal_with_fuel(eval, 2);
}

/// The value that entry `e` writes to setting `k`, if it writes one; `done`
/// holds the expanded values of the earlier presets.
pub open spec fn writes(e: PresetEntry, k: int, done: Seq<Seq<Option<bool>>>) -> Option<bool> {
    match e {
        PresetEntry::Assert(h, v) => if h.index == k {
            Some(v)
        } else {
            None
        },
        PresetEntry::Include(q) => if q.index < done.len() && 0 <= k < done[q.index as int].len() {
            done[q.index as int][k]
        } else {
            None
        },
    }
}

proof fn lemma_apply_entry(acc: Seq<Option<bool>>, e: PresetEntry, done: Seq<Seq<Option<bool>>>, k: int)
    requires
        0 <= k < acc.len(),
    ensures
        apply_entry(acc, e, done).len() == acc.len(),
        apply_entry(acc, e, done)[k] == match writes(e, k, done) {
            Some(v) => Some(v),
            None => acc[k],
        },
{
}

/// The last entry of a preset that writes a setting decides its value.
pub proof fn lemma_last_write_wins(
    es: Seq<PresetEntry>,
    n: nat,
    done: Seq<Seq<Option<bool>>>,
    m: int,
    k: int,
    v: bool,
)
    requires
        0 <= m < es.len(),
        0 <= k < n,
        writes(es[m], k, done) == Some(v),
        forall|t: int| m < t < es.len() ==> (#[trigger] writes(es[t], k, done)) is None,
    ensures
        expand(es, n, done)[k] == Some(v),
    decreases es.len(),
{
    let init = es.drop_last();
    lemma_expand_len(init, n, done);
    lemma_apply_entry(expand(init, n, done), es.last(), done, k);
    if m < es.len() - 1 {
        assert forall|t: int| m < t < init.len() implies (#[trigger] writes(init[t], k, done)) is None by {
            assert(init[t] == es[t]);
        }
        lemma_last_write_wins(init, n, done, m, k, v);
        assert(writes(es[es.len() - 1], k, done) is None);
    }
}

/// A setting that no entry writes stays at its default.
pub proof fn lemma_untouched_setting(es: Seq<PresetEntry>, n: nat, done: Seq<Seq<Option<bool>>>, k: int)
    requires
        0 <= k < n,
        forall|t: int| 0 <= t < es.len() ==> (#[trigger] writes(es[t], k, done)) is None,
    ensures
        expand(es, n, done)[k] is None,
    decreases es.len(),
{
    if es.len() > 0 {
        let init = es.drop_last();
        lemma_expand_len(init, n, done);
        lemma_apply_entry(expand(init, n, done), es.last(), done, k);
        assert forall|t: int| 0 <= t < init.len() implies (#[trigger] writes(init[t], k, done)) is None by {
            assert(init[t] == es[t]);
        }
        lemma_untouched_setting(init, n, done, k);
        assert(writes(es[es.len() - 1], k, done) is None);
    }
}

/// Preset `q` is expanded against the presets declared before it.
pub proof fn lemma_expand_all_index(ps: Seq<Seq<PresetEntry>>, n: nat, q: int)
    requires
        0 <= q < ps.len(),
    ensures
        expand_all(ps, n)[q] == expand(ps[q], n, expand_all(ps, n).take(q)),
    decreases ps.len(),
{
    let init = ps.drop_last();
    let done = expand_all(init, n);
    lemma_expand_all_shape(init, n);
    if q == ps.len() - 1 {
        assert(expand_all(ps, n).take(q) =~= done);
    } else {
        lemma_expand_all_index(init, n, q);
        assert(done.take(q) =~= expand_all(ps, n).take(q));
    }
}

/// Presets declared later never change the values of earlier ones.
pub proof fn lemma_earlier_presets_stable(ps: Seq<Seq<PresetEntry>>, n: nat, m: int)
    requires
        0 <= m <= ps.len(),
    ensures
        expand_all(ps.take(m), n) == expand_all(ps, n).take(m),
    decreases ps.len(),
{
    lemma_expand_all_shape(ps, n);
    if m == ps.len() {
        assert(ps.take(m) =~= ps);
        assert(expand_all(ps, n).take(m) =~= expand_all(ps, n));
    } else {
        let init = ps.drop_last();
        lemma_expand_all_shape(init, n);
        lemma_earlier_presets_stable(init, n, m);
        assert(init.take(m) =~= ps.take(m));
        assert(expand_all(init, n).take(m) =~= expand_all(ps, n).take(m));
    }
}

/// The expanded values of the presets declared before preset `q`.
pub open spec fn done_before(d: DraftModel, q: int) -> Seq<Seq<Option<bool>>> {
    expand_all(preset_entries(d), d.settings.len()).take(q)
}

/// In a built group, the last entry of preset `p` that writes setting `k`
/// decides the value that `p` requires of `k`, whether it asserts the value
/// itself or includes an earlier preset that requires it.
pub proof fn lemma_preset_last_write_wins(d: DraftModel, p: int, m: int, k: int, v: bool)
    requires
        0 <= p < d.presets.len(),
        0 <= m < d.presets[p].1.len(),
        0 <= k < d.settings.len(),
        writes(d.presets[p].1[m], k, done_before(d, p)) == Some(v),
        forall|t: int| m < t < d.presets[p].1.len()
            ==> (#[trigger] writes(d.presets[p].1[t], k, done_before(d, p))) is None,
    ensures
        build_model(d).presets[p].1[k] == Some(v),
{
    let ps = preset_entries(d);
    lemma_expand_all_index(ps, d.settings.len(), p);
    assert(ps[p] == d.presets[p].1);
    lemma_last_write_wins(d.presets[p].1, d.settings.len(), done_before(d, p), m, k, v);
}

/// Declaring one more preset leaves the values of every earlier preset as
/// they were.
pub proof fn lemma_new_preset_leaves_earlier(d: DraftModel, e: (Seq<char>, Seq<PresetEntry>), p: int)
    requires
        0 <= p < d.presets.len(),
    ensures
        build_model(DraftModel { presets: d.presets.push(e), ..d }).presets[p] == build_model(d).presets[p],
{
    let d2 = DraftModel { presets: d.presets.push(e), ..d };
    let n = d.settings.len();
    assert(preset_entries(d2).take(d.presets.len() as int) =~= preset_entries(d));
    lemma_earlier_presets_stable(preset_entries(d2), n, d.presets.len() as int);
    lemma_expand_all_shape(preset_entries(d2), n);
    lemma_expand_all_shape(preset_entries(d), n);
}

/// If `p3` includes `p2` and `p2` includes `p1`, each with no later entry
/// writing setting `k`, then `p3` requires of `k` what `p1` requires.
pub proof fn lemma_transitive_inclusion(
    d: DraftModel,
    p1: PresetHandle,
    p2: PresetHandle,
    p3: int,
    m2: int,
    m3: int,
    k: int,
    v: bool,
)
    requires
        p1.index < p2.index < p3 < d.presets.len(),
        0 <= k < d.settings.len(),
        0 <= m2 < d.presets[p2.index as int].1.len(),
        d.presets[p2.index as int].1[m2] == PresetEntry::Include(p1),
        forall|t: int| m2 < t < d.presets[p2.index as int].1.len()
            ==> (#[trigger] writes(d.presets[p2.index as int].1[t], k, done_before(d, p2.index as int))) is None,
        0 <= m3 < d.presets[p3].1.len(),
        d.presets[p3].1[m3] == PresetEntry::Include(p2),
        forall|t: int| m3 < t < d.presets[p3].1.len()
            ==> (#[trigger] writes(d.presets[p3].1[t], k, done_before(d, p3))) is None,
        build_model(d).presets[p1.index as int].1[k] == Some(v),
    ensures
        build_model(d).presets[p3].1[k] == Some(v),
{
    let n = d.settings.len();
    lemma_expand_all_shape(preset_entries(d), n);
    assert(writes(d.presets[p2.index as int].1[m2], k, done_before(d, p2.index as int)) == Some(v));
    lemma_preset_last_write_wins(d, p2.index as int, m2, k, v);
    assert(writes(d.presets[p3].1[m3], k, done_before(d, p3)) == Some(v));
    lemma_preset_last_write_wins(d, p3, m3, k, v);
}

} // verus!
