use vstd::prelude::*;
use crate::expr::{Expr, copy_expr, eval, evaluate_expr, in_range};
use crate::search::{
    find_name, find_repeat, first_index, first_repeat, first_where, lemma_first_where_none,
    lemma_first_where_some, opt_index, views,
};

verus! {

/// Handle of a boolean setting: its position in declaration order.
#[derive(Debug, Clone, Copy, PartialEq, Eq, Structural)]
pub struct SettingHandle {
    pub index: usize,
}

/// Handle of a predicate: its position in declaration order.
#[derive(Debug, Clone, Copy, PartialEq, Eq, Structural)]
pub struct PredicateHandle {
    pub index: usize,
}

/// Handle of a preset: its position in declaration order.
#[derive(Debug, Clone, Copy, PartialEq, Eq, Structural)]
pub struct PresetHandle {
    pub index: usize,
}

/// A reference, by name, to a boolean setting or simple predicate of the
/// parent group. The name is resolved when the referring group is built.
#[derive(Debug)]
pub struct SharedRef {
    name: String,
}

impl View for SharedRef {
    type V = Seq<char>;

    closed spec fn view(&self) -> Seq<char> {
        self.name@
    }
}

/// A predicate as declared: a tree of boolean combinators over settings of
/// this group and of its parent group.
#[derive(Debug)]
pub enum PredicateNode {
    Local(SettingHandle),
    Shared(SharedRef),
    Pred(PredicateHandle),
    And(Box<PredicateNode>, Box<PredicateNode>),
    Or(Box<PredicateNode>, Box<PredicateNode>),
    Not(Box<PredicateNode>),
}

/// The mathematical form of a declared predicate tree.
pub enum NodeModel {
    Local(nat),
    Shared(Seq<char>),
    Pred(nat),
    And(Box<NodeModel>, Box<NodeModel>),
    Or(Box<NodeModel>, Box<NodeModel>),
    Not(Box<NodeModel>),
}

pub open spec fn node_model(t: PredicateNode) -> NodeModel
    decreases t,
{
    match t {
        PredicateNode::Local(h) => NodeModel::Local(h.index as nat),
        PredicateNode::Shared(r) => NodeModel::Shared(r@),
        PredicateNode::Pred(h) => NodeModel::Pred(h.index as nat),
        PredicateNode::And(a, b) => NodeModel::And(Box::new(node_model(*a)), Box::new(node_model(*b))),
        PredicateNode::Or(a, b) => NodeModel::Or(Box::new(node_model(*a)), Box::new(node_model(*b))),
        PredicateNode::Not(a) => NodeModel::Not(Box::new(node_model(*a))),
    }
}

impl PredicateNode {
    /// A leaf that tests a setting of this group.
    pub fn setting(h: SettingHandle) -> (r: PredicateNode)
        ensures
            node_model(r) == NodeModel::Local(h.index as nat),
    {
        PredicateNode::Local(h)
    }

    /// A leaf that tests a setting or simple predicate of the parent group.
    pub fn shared(s: SharedRef) -> (r: PredicateNode)
        ensures
            node_model(r) == NodeModel::Shared(s@),
    {
        PredicateNode::Shared(s)
    }

    /// A leaf that stands for a predicate declared earlier in this group.
    pub fn predicate(h: PredicateHandle) -> (r: PredicateNode)
        ensures
            node_model(r) == NodeModel::Pred(h.index as nat),
    {
        PredicateNode::Pred(h)
    }

    pub fn and(a: PredicateNode, b: PredicateNode) -> (r: PredicateNode)
        ensures
            node_model(r) == NodeModel::And(Box::new(node_model(a)), Box::new(node_model(b))),
    {
        PredicateNode::And(Box::new(a), Box::new(b))
    }

    pub fn or(a: PredicateNode, b: PredicateNode) -> (r: PredicateNode)
        ensures
            node_model(r) == NodeModel::Or(Box::new(node_model(a)), Box::new(node_model(b))),
    {
        PredicateNode::Or(Box::new(a), Box::new(b))
    }

    pub fn not(a: PredicateNode) -> (r: PredicateNode)
        ensures
            node_model(r) == NodeModel::Not(Box::new(node_model(a))),
    {
        PredicateNode::Not(Box::new(a))
    }
}

/// One entry of a preset: a required value for a setting, or the inclusion of
/// an earlier preset's expanded values.
#[derive(Debug, Clone, Copy, PartialEq, Eq, Structural)]
pub enum PresetEntry {
    Assert(SettingHandle, bool),
    Include(PresetHandle),
}

/// What went wrong in a build. A setting given two values within one preset,
/// directly or through included presets, is no error: entries apply in
/// declaration order and the later one wins.
#[derive(Debug, Clone, Copy, PartialEq, Eq, Structural)]
pub enum ErrorKind {
    /// A setting or predicate name (one shared namespace), or a preset name,
    /// is declared twice.
    DuplicateName,
    /// A predicate or preset refers to a setting that does not exist here or
    /// in the parent group, or to a parent predicate without a bit of its own.
    UnknownSetting,
    /// A predicate refers to itself or to a predicate declared after it, or a
    /// preset includes itself or a preset declared after it.
    CyclicReference,
}

/// A failed build: the kind of failure and the name of the offending item.
#[derive(Debug)]
pub struct BuildError {
    pub kind: ErrorKind,
    pub name: String,
}

struct Setting {
    name: String,
    description: String,
    default: bool,
}

struct PredicateDecl {
    name: String,
    tree: PredicateNode,
}

struct PresetDecl {
    name: String,
    entries: Vec<PresetEntry>,
}

/// A group under construction. `build` consumes it.
pub struct SettingGroupBuilder {
    name: String,
    parent: Vec<String>,
    parent_slots: Vec<Option<usize>>,
    parent_width: usize,
    settings: Vec<Setting>,
    predicates: Vec<PredicateDecl>,
    presets: Vec<PresetDecl>,
}

/// What a group sees of its parent: the names of the parent's settings and
/// predicates, the bit of each in the parent's full bit vector (`None` for a
/// composite predicate, which has no bit), and that vector's width.
pub struct ParentModel {
    pub names: Seq<Seq<char>>,
    pub slots: Seq<Option<nat>>,
    pub width: nat,
}

/// Every name has a slot, and every slot lies within the width.
pub open spec fn parent_wf(p: ParentModel) -> bool {
    &&& p.names.len() == p.slots.len()
    &&& forall|k: int| 0 <= k < p.slots.len() ==> (#[trigger] p.slots[k] matches Some(b) ==> b < p.width)
}

/// The parent of a group that has none.
pub open spec fn no_parent() -> ParentModel {
    ParentModel { names: Seq::empty(), slots: Seq::empty(), width: 0 }
}

pub open spec fn opt_nats(s: Seq<Option<usize>>) -> Seq<Option<nat>> {
    s.map_values(|o: Option<usize>| opt_nat(o))
}

/// The declarations of a group, in order: each setting as (name, description,
/// default), each predicate as (name, tree), each preset as (name, entries),
/// and what the group sees of its parent.
pub struct DraftModel {
    pub name: Seq<char>,
    pub parent: ParentModel,
    pub settings: Seq<(Seq<char>, Seq<char>, bool)>,
    pub predicates: Seq<(Seq<char>, NodeModel)>,
    pub presets: Seq<(Seq<char>, Seq<PresetEntry>)>,
}

spec fn setting_model(s: Setting) -> (Seq<char>, Seq<char>, bool) {
    (s.name@, s.description@, s.default)
}

impl View for SettingGroupBuilder {
    type V = DraftModel;

    closed spec fn view(&self) -> DraftModel {
        DraftModel {
            name: self.name@,
            parent: ParentModel {
                names: views(self.parent@),
                slots: opt_nats(self.parent_slots@),
                width: self.parent_width as nat,
            },
            settings: self.settings@.map_values(|s: Setting| setting_model(s)),
            predicates: self.predicates@.map_values(|p: PredicateDecl| (p.name@, node_model(p.tree))),
            presets: self.presets@.map_values(|p: PresetDecl| (p.name@, p.entries@)),
        }
    }
}

// ---------------------------------------------------------------------------
// What a build computes, stated over the declarations.

/// Names of settings and predicates, which share one namespace (each setting
/// and each simple predicate owns a bit, so their names must not alias).
pub open spec fn item_names(d: DraftModel) -> Seq<Seq<char>> {
    d.settings.map_values(|s: (Seq<char>, Seq<char>, bool)| s.0)
        + d.predicates.map_values(|p: (Seq<char>, NodeModel)| p.0)
}

pub open spec fn preset_names(d: DraftModel) -> Seq<Seq<char>> {
    d.presets.map_values(|p: (Seq<char>, Seq<PresetEntry>)| p.0)
}

pub open spec fn preset_entries(d: DraftModel) -> Seq<Seq<PresetEntry>> {
    d.presets.map_values(|p: (Seq<char>, Seq<PresetEntry>)| p.1)
}

/// The first bad leaf of `t`, in left-to-right order, in predicate number `i`
/// named `owner`, in a group of `n` settings: a leaf must name a local
/// setting, a parent setting or simple parent predicate (one with a bit), or a
/// predicate declared before this one. The fault comes with the offending
/// name: the missing parent item's own name,
/// else (a handle has no name) the name of the predicate that holds it.
pub open spec fn node_error(t: NodeModel, n: nat, parent: ParentModel, i: int, owner: Seq<char>) -> Option<(ErrorKind, Seq<char>)>
    decreases t,
{
    match t {
        NodeModel::Local(k) => if k < n { None } else { Some((ErrorKind::UnknownSetting, owner)) },
        NodeModel::Shared(s) => match first_index(parent.names, s) {
            Some(k) => if parent.slots[k] is Some { None } else { Some((ErrorKind::UnknownSetting, s)) },
            None => Some((ErrorKind::UnknownSetting, s)),
        },
        NodeModel::Pred(j) => if j < i { None } else { Some((ErrorKind::CyclicReference, owner)) },
        NodeModel::And(a, b) => match node_error(*a, n, parent, i, owner) {
            Some(e) => Some(e),
            None => node_error(*b, n, parent, i, owner),
        },
        NodeModel::Or(a, b) => match node_error(*a, n, parent, i, owner) {
            Some(e) => Some(e),
            None => node_error(*b, n, parent, i, owner),
        },
        NodeModel::Not(a) => node_error(*a, n, parent, i, owner),
    }
}

/// The compiled expression of a tree: a local leaf reads its setting's bit, a
/// parent leaf reads the parent's bit for the first parent item of that name, and a
/// predicate leaf stands for that predicate's compiled expression, taken from
/// `done`, the compiled expressions of the earlier predicates.
pub open spec fn resolve(t: NodeModel, parent: ParentModel, done: Seq<Expr>) -> Expr
    decreases t,
{
    match t {
        NodeModel::Local(i) => Expr::Bit(i as usize),
        NodeModel::Shared(s) => Expr::ParentBit(
            match first_index(parent.names, s) {
                Some(k) => match parent.slots[k] {
                    Some(b) => b as usize,
                    None => 0,
                },
                None => 0,
            },
        ),
        NodeModel::Pred(j) => if j < done.len() { done[j as int] } else { Expr::Bit(0) },
        NodeModel::And(a, b) => Expr::And(
            Box::new(resolve(*a, parent, done)),
            Box::new(resolve(*b, parent, done)),
        ),
        NodeModel::Or(a, b) => Expr::Or(
            Box::new(resolve(*a, parent, done)),
            Box::new(resolve(*b, parent, done)),
        ),
        NodeModel::Not(a) => Expr::Not(Box::new(resolve(*a, parent, done))),
    }
}

pub open spec fn predicate_trees(d: DraftModel) -> Seq<NodeModel> {
    d.predicates.map_values(|p: (Seq<char>, NodeModel)| p.1)
}

/// The compiled expression of every predicate, each against those before it.
pub open spec fn compile_all(ts: Seq<NodeModel>, parent: ParentModel) -> Seq<Expr>
    decreases ts.len(),
{
    if ts.len() == 0 {
        Seq::empty()
    } else {
        let done = compile_all(ts.drop_last(), parent);
        done.push(resolve(ts.last(), parent, done))
    }
}

/// A simple predicate compiles to one unnegated local bit; it gets a bit of its own.
pub open spec fn is_simple(e: Expr) -> bool {
    e is Bit
}

pub open spec fn count_simple(es: Seq<Expr>) -> nat
    decreases es.len(),
{
    if es.len() == 0 {
        0
    } else {
        count_simple(es.drop_last()) + if is_simple(es.last()) { 1nat } else { 0nat }
    }
}

/// The bit of predicate `i` among compiled predicates `es`: simple predicates
/// are numbered after the `n` settings, in declaration order.
pub open spec fn predicate_bit(es: Seq<Expr>, n: nat, i: int) -> Option<nat> {
    if is_simple(es[i]) {
        Some(n + count_simple(es.take(i)))
    } else {
        None
    }
}

/// Predicate `i` has a bad leaf.
pub open spec fn bad_predicate_at(d: DraftModel) -> spec_fn(int) -> bool {
    |i: int| node_error(d.predicates[i].1, d.settings.len(), d.parent, i, d.predicates[i].0) is Some
}

pub open spec fn first_bad_predicate(d: DraftModel) -> Option<int> {
    first_where(d.predicates.len(), bad_predicate_at(d))
}

/// The fault of entry `e` of preset number `p` in a group of `n` settings.
pub open spec fn entry_error(e: PresetEntry, p: int, n: nat) -> Option<ErrorKind> {
    match e {
        PresetEntry::Assert(h, _) => if h.index < n { None } else { Some(ErrorKind::UnknownSetting) },
        PresetEntry::Include(q) => if q.index < p { None } else { Some(ErrorKind::CyclicReference) },
    }
}

/// Entry `k` of `es` is at fault.
pub open spec fn bad_entry_at(es: Seq<PresetEntry>, p: int, n: nat) -> spec_fn(int) -> bool {
    |k: int| entry_error(es[k], p, n) is Some
}

pub open spec fn first_bad_entry(es: Seq<PresetEntry>, p: int, n: nat) -> Option<int> {
    first_where(es.len(), bad_entry_at(es, p, n))
}

/// Preset `p` has an entry at fault.
pub open spec fn bad_preset_at(d: DraftModel) -> spec_fn(int) -> bool {
    |p: int| first_bad_entry(d.presets[p].1, p, d.settings.len()) is Some
}

pub open spec fn first_bad_preset(d: DraftModel) -> Option<int> {
    first_where(d.presets.len(), bad_preset_at(d))
}

/// The error a build reports, if any. Checks run in this order: repeated
/// setting or predicate names, repeated preset names, predicates with a
/// bad leaf, then preset entries; within each, the first offender counts.
pub open spec fn build_error(d: DraftModel) -> Option<(ErrorKind, Seq<char>)> {
    match first_repeat(item_names(d)) {
        Some(i) => Some((ErrorKind::DuplicateName, item_names(d)[i])),
        None => match first_repeat(preset_names(d)) {
            Some(i) => Some((ErrorKind::DuplicateName, preset_names(d)[i])),
            None => match first_bad_predicate(d) {
                Some(i) => node_error(d.predicates[i].1, d.settings.len(), d.parent, i, d.predicates[i].0),
                None => match first_bad_preset(d) {
                    Some(p) => {
                        let es = d.presets[p].1;
                        let k = first_bad_entry(es, p, d.settings.len()).unwrap();
                        Some((entry_error(es[k], p, d.settings.len()).unwrap(), d.presets[p].0))
                    },
                    None => None,
                },
            },
        },
    }
}

/// `top`'s asserted values written over `base`.
pub open spec fn overlay(base: Seq<Option<bool>>, top: Seq<Option<bool>>) -> Seq<Option<bool>> {
    Seq::new(base.len(), |k: int| if k < top.len() && top[k] is Some { top[k] } else { base[k] })
}

/// One preset entry applied to the values gathered so far; `done` holds the
/// expanded values of the earlier presets. The later write wins.
pub open spec fn apply_entry(acc: Seq<Option<bool>>, e: PresetEntry, done: Seq<Seq<Option<bool>>>) -> Seq<Option<bool>> {
    match e {
        PresetEntry::Assert(h, v) => if h.index < acc.len() {
            acc.update(h.index as int, Some(v))
        } else {
            acc
        },
        PresetEntry::Include(q) => if q.index < done.len() {
            overlay(acc, done[q.index as int])
        } else {
            acc
        },
    }
}

/// The values that entries `es` require of `n` settings, `None` where a
/// setting is left at its default.
pub open spec fn expand(es: Seq<PresetEntry>, n: nat, done: Seq<Seq<Option<bool>>>) -> Seq<Option<bool>>
    decreases es.len(),
{
    if es.len() == 0 {
        Seq::new(n, |k: int| None)
    } else {
        apply_entry(expand(es.drop_last(), n, done), es.last(), done)
    }
}

/// The expanded values of every preset, each against those before it.
pub open spec fn expand_all(ps: Seq<Seq<PresetEntry>>, n: nat) -> Seq<Seq<Option<bool>>>
    decreases ps.len(),
{
    if ps.len() == 0 {
        Seq::empty()
    } else {
        let done = expand_all(ps.drop_last(), n);
        done.push(expand(ps.last(), n, done))
    }
}

/// A frozen group: settings as declared, each predicate as (name, compiled
/// expression, own bit if simple), each preset as (name, expanded values),
/// the width of the parent's bit vector and the width of this group's.
pub struct GroupModel {
    pub name: Seq<char>,
    pub parent_len: nat,
    pub settings: Seq<(Seq<char>, Seq<char>, bool)>,
    pub predicates: Seq<(Seq<char>, Expr, Option<nat>)>,
    pub presets: Seq<(Seq<char>, Seq<Option<bool>>)>,
    pub width: nat,
}

/// The group that a successful build of `d` yields.
pub open spec fn build_model(d: DraftModel) -> GroupModel {
    GroupModel {
        name: d.name,
        parent_len: d.parent.width,
        settings: d.settings,
        predicates: Seq::new(
            d.predicates.len(),
            |i: int|
                (
                    d.predicates[i].0,
                    compile_all(predicate_trees(d), d.parent)[i],
                    predicate_bit(compile_all(predicate_trees(d), d.parent), d.settings.len(), i),
                ),
        ),
        presets: Seq::new(
            d.presets.len(),
            |p: int| (d.presets[p].0, expand_all(preset_entries(d), d.settings.len())[p]),
        ),
        width: d.settings.len() + count_simple(compile_all(predicate_trees(d), d.parent)),
    }
}

/// The compiled expressions of a frozen group's predicates.
pub open spec fn model_exprs(g: GroupModel) -> Seq<Expr> {
    g.predicates.map_values(|p: (Seq<char>, Expr, Option<nat>)| p.1)
}

/// Compiled expressions read only existing bits; every preset covers every
/// setting; simple predicates are numbered after the settings and fill the width.
pub open spec fn model_wf(g: GroupModel) -> bool {
    &&& forall|i: int| 0 <= i < g.predicates.len() ==> in_range(#[trigger] g.predicates[i].1, g.settings.len(), g.parent_len)
    &&& forall|p: int| 0 <= p < g.presets.len() ==> (#[trigger] g.presets[p].1).len() == g.settings.len()
    &&& forall|i: int| 0 <= i < g.predicates.len()
        ==> #[trigger] g.predicates[i].2 == predicate_bit(model_exprs(g), g.settings.len(), i)
    &&& g.width == g.settings.len() + count_simple(model_exprs(g))
}

/// What a child group sees of the frozen group `g`: its settings and
/// predicates by name, with their bits.
pub open spec fn parent_of(g: GroupModel) -> ParentModel {
    ParentModel {
        names: group_item_names(g),
        slots: Seq::new(
            g.settings.len() + g.predicates.len(),
            |k: int| if k < g.settings.len() { Some(k as nat) } else { g.predicates[k - g.settings.len()].2 },
        ),
        width: g.width,
    }
}

/// The values of the simple predicates among `es`, in order.
pub open spec fn simple_values(es: Seq<Expr>, bits: Seq<bool>, parent_bits: Seq<bool>) -> Seq<bool>
    decreases es.len(),
{
    if es.len() == 0 {
        Seq::empty()
    } else {
        let init = simple_values(es.drop_last(), bits, parent_bits);
        if is_simple(es.last()) {
            init.push(eval(es.last(), bits, parent_bits))
        } else {
            init
        }
    }
}

pub proof fn lemma_simple_values_len(es: Seq<Expr>, bits: Seq<bool>, parent_bits: Seq<bool>)
    ensures
        simple_values(es, bits, parent_bits).len() == count_simple(es),
    decreases es.len(),
{
    if es.len() > 0 {
        lemma_simple_values_len(es.drop_last(), bits, parent_bits);
    }
}

/// A simple predicate's value sits at its place among the simple ones.
pub proof fn lemma_simple_values_at(es: Seq<Expr>, j: int, bits: Seq<bool>, parent_bits: Seq<bool>)
    requires
        0 <= j < es.len(),
        is_simple(es[j]),
    ensures
        count_simple(es.take(j)) < count_simple(es),
        simple_values(es, bits, parent_bits)[count_simple(es.take(j)) as int] == eval(es[j], bits, parent_bits),
    decreases es.len(),
{
    let init = es.drop_last();
    lemma_simple_values_len(init, bits, parent_bits);
    if j == es.len() - 1 {
        assert(es.take(j) =~= init);
    } else {
        assert(init.take(j) =~= es.take(j));
        lemma_simple_values_at(init, j, bits, parent_bits);
    }
}

pub proof fn lemma_parent_of_wf(g: GroupModel)
    requires
        model_wf(g),
    ensures
        parent_wf(parent_of(g)),
{
    let n = g.settings.len();
    let p = parent_of(g);
    assert forall|k: int| 0 <= k < p.slots.len() implies (#[trigger] p.slots[k] matches Some(b) ==> b < p.width) by {
        if k >= n {
            let j = k - n;
            assert(g.predicates[j].2 == predicate_bit(model_exprs(g), n, j));
            if is_simple(model_exprs(g)[j]) {
                lemma_simple_values_at(model_exprs(g), j, Seq::empty(), Seq::empty());
            }
        }
    }
}

struct CompiledPredicate {
    name: String,
    expr: Expr,
    bit: Option<usize>,
}

struct CompiledPreset {
    name: String,
    values: Vec<Option<bool>>,
}

/// The frozen descriptor that `build` produces.
pub struct SettingGroup {
    name: String,
    parent_len: usize,
    settings: Vec<Setting>,
    predicates: Vec<CompiledPredicate>,
    presets: Vec<CompiledPreset>,
    width: usize,
    item_names: Vec<String>,
    preset_names: Vec<String>,
}

pub open spec fn opt_nat(o: Option<usize>) -> Option<nat> {
    match o {
        Some(i) => Some(i as nat),
        None => None,
    }
}

spec fn compiled_model(p: CompiledPredicate) -> (Seq<char>, Expr, Option<nat>) {
    (p.name@, p.expr, opt_nat(p.bit))
}

spec fn preset_model(p: CompiledPreset) -> (Seq<char>, Seq<Option<bool>>) {
    (p.name@, p.values@)
}

impl View for SettingGroup {
    type V = GroupModel;

    closed spec fn view(&self) -> GroupModel {
        GroupModel {
            name: self.name@,
            parent_len: self.parent_len as nat,
            settings: self.settings@.map_values(|s: Setting| setting_model(s)),
            predicates: self.predicates@.map_values(|p: CompiledPredicate| compiled_model(p)),
            presets: self.presets@.map_values(|p: CompiledPreset| preset_model(p)),
            width: self.width as nat,
        }
    }
}

pub proof fn lemma_expand_len(es: Seq<PresetEntry>, n: nat, done: Seq<Seq<Option<bool>>>)
    ensures
        expand(es, n, done).len() == n,
    decreases es.len(),
{
    if es.len() > 0 {
        lemma_expand_len(es.drop_last(), n, done);
    }
}

pub proof fn lemma_expand_all_shape(ps: Seq<Seq<PresetEntry>>, n: nat)
    ensures
        expand_all(ps, n).len() == ps.len(),
        forall|q: int| 0 <= q < ps.len() ==> (#[trigger] expand_all(ps, n)[q]).len() == n,
    decreases ps.len(),
{
    if ps.len() > 0 {
        lemma_expand_all_shape(ps.drop_last(), n);
        lemma_expand_len(ps.last(), n, expand_all(ps.drop_last(), n));
    }
}

pub proof fn lemma_resolve_in_range(t: NodeModel, n: nat, parent: ParentModel, done: Seq<Expr>, owner: Seq<char>)
    requires
        node_error(t, n, parent, done.len() as int, owner) is None,
        parent_wf(parent),
        forall|k: int| 0 <= k < done.len() ==> in_range(#[trigger] done[k], n, parent.width),
    ensures
        in_range(resolve(t, parent, done), n, parent.width),
    decreases t,
{
    match t {
        NodeModel::And(a, b) => {
            lemma_resolve_in_range(*a, n, parent, done, owner);
            lemma_resolve_in_range(*b, n, parent, done, owner);
        },
        NodeModel::Or(a, b) => {
            lemma_resolve_in_range(*a, n, parent, done, owner);
            lemma_resolve_in_range(*b, n, parent, done, owner);
        },
        NodeModel::Not(a) => {
            lemma_resolve_in_range(*a, n, parent, done, owner);
        },
        _ => {},
    }
}

pub proof fn lemma_compile_all_len(ts: Seq<NodeModel>, parent: ParentModel)
    ensures
        compile_all(ts, parent).len() == ts.len(),
    decreases ts.len(),
{
    if ts.len() > 0 {
        lemma_compile_all_len(ts.drop_last(), parent);
    }
}

/// Predicate `i` is compiled against the predicates declared before it.
pub proof fn lemma_compile_all_index(ts: Seq<NodeModel>, parent: ParentModel, i: int)
    requires
        0 <= i < ts.len(),
    ensures
        compile_all(ts, parent)[i] == resolve(ts[i], parent, compile_all(ts, parent).take(i)),
    decreases ts.len(),
{
    let init = ts.drop_last();
    let done = compile_all(init, parent);
    lemma_compile_all_len(init, parent);
    if i == ts.len() - 1 {
        assert(compile_all(ts, parent).take(i) =~= done);
    } else {
        lemma_compile_all_index(init, parent, i);
        assert(done.take(i) =~= compile_all(ts, parent).take(i));
    }
}

spec fn exprs_of(v: Seq<CompiledPredicate>) -> Seq<Expr> {
    v.map_values(|p: CompiledPredicate| p.expr)
}

/// Entry `k` of preset `p` is the first fault among the presets, given that
/// the entries before it and the presets before `p` are sound.
proof fn lemma_first_bad_preset(d: DraftModel, p: int, k: int)
    requires
        0 <= p < d.presets.len(),
        0 <= k < d.presets[p].1.len(),
        entry_error(d.presets[p].1[k], p, d.settings.len()) is Some,
        forall|j: int| 0 <= j < k ==> (#[trigger] entry_error(d.presets[p].1[j], p, d.settings.len())) is None,
        forall|q: int| 0 <= q < p ==> (#[trigger] first_bad_entry(d.presets[q].1, q, d.settings.len())) is None,
    ensures
        first_bad_preset(d) == Some(p),
        first_bad_entry(d.presets[p].1, p, d.settings.len()) == Some(k),
{
    let es = d.presets[p].1;
    let n = d.settings.len();
    assert forall|j: int| 0 <= j < k implies !#[trigger] bad_entry_at(es, p, n)(j) by {
        assert(entry_error(es[j], p, n) is None);
    }
    lemma_first_where_some(es.len(), bad_entry_at(es, p, n), k);
    assert forall|q: int| 0 <= q < p implies !#[trigger] bad_preset_at(d)(q) by {
        assert(first_bad_entry(d.presets[q].1, q, n) is None);
    }
    assert(bad_preset_at(d)(p));
    lemma_first_where_some(d.presets.len(), bad_preset_at(d), p);
}

/// Checks the leaves of `t` and compiles it against the predicates compiled so far.
fn compile_node(
    t: &PredicateNode,
    owner: &String,
    n: usize,
    parent: &Vec<String>,
    slots: &Vec<Option<usize>>,
    width: usize,
    done: &Vec<CompiledPredicate>,
) -> (r: Result<Expr, BuildError>)
    requires
        parent@.len() == slots@.len(),
    ensures
        ({
            let pm = ParentModel { names: views(parent@), slots: opt_nats(slots@), width: width as nat };
            match r {
                Ok(e) => node_error(node_model(*t), n as nat, pm, done@.len() as int, owner@) is None
                    && e == resolve(node_model(*t), pm, exprs_of(done@)),
                Err(e) => node_error(node_model(*t), n as nat, pm, done@.len() as int, owner@)
                    == Some((e.kind, e.name@)),
            }
        }),
    decreases t,
{
    match t {
        PredicateNode::Local(h) => if h.index < n {
            Ok(Expr::Bit(h.index))
        } else {
            Err(BuildError { kind: ErrorKind::UnknownSetting, name: owner.clone() })
        },
        PredicateNode::Shared(r) => match find_name(parent, &r.name) {
            Some(k) => match slots[k] {
                Some(b) => Ok(Expr::ParentBit(b)),
                None => Err(BuildError { kind: ErrorKind::UnknownSetting, name: r.name.clone() }),
            },
            None => Err(BuildError { kind: ErrorKind::UnknownSetting, name: r.name.clone() }),
        },
        PredicateNode::Pred(h) => if h.index < done.len() {
            Ok(copy_expr(&done[h.index].expr))
        } else {
            Err(BuildError { kind: ErrorKind::CyclicReference, name: owner.clone() })
        },
        PredicateNode::And(a, b) => {
            let x = compile_node(a, owner, n, parent, slots, width, done)?;
            let y = compile_node(b, owner, n, parent, slots, width, done)?;
            Ok(Expr::And(Box::new(x), Box::new(y)))
        },
        PredicateNode::Or(a, b) => {
            let x = compile_node(a, owner, n, parent, slots, width, done)?;
            let y = compile_node(b, owner, n, parent, slots, width, done)?;
            Ok(Expr::Or(Box::new(x), Box::new(y)))
        },
        PredicateNode::Not(a) => {
            let x = compile_node(a, owner, n, parent, slots, width, done)?;
            Ok(Expr::Not(Box::new(x)))
        },
    }
}

impl SettingGroupBuilder {
    /// An empty group with no parent.
    pub fn new(name: &str) -> (r: SettingGroupBuilder)
        ensures
            r@ == (DraftModel {
                name: name@,
                parent: no_parent(),
                settings: Seq::empty(),
                predicates: Seq::empty(),
                presets: Seq::empty(),
            }),
    {
        let r = SettingGroupBuilder {
            name: name.to_owned(),
            parent: Vec::new(),
            parent_slots: Vec::new(),
            parent_width: 0,
            settings: Vec::new(),
            predicates: Vec::new(),
            presets: Vec::new(),
        };
        assert(r@.parent.names =~= Seq::empty());
        assert(r@.parent.slots =~= Seq::empty());
        assert(r@.settings =~= Seq::empty());
        assert(r@.predicates =~= Seq::empty());
        assert(r@.presets =~= Seq::empty());
        r
    }

    /// An empty group whose predicates may test the settings of `parent` and
    /// its simple predicates (those with a bit of their own).
    pub fn with_parent(name: &str, parent: &SettingGroup) -> (r: SettingGroupBuilder)
        requires
            parent.wf(),
        ensures
            r@ == (DraftModel {
                name: name@,
                parent: parent_of(parent@),
                settings: Seq::empty(),
                predicates: Seq::empty(),
                presets: Seq::empty(),
            }),
            parent_wf(r@.parent),
    {
        let mut r = SettingGroupBuilder::new(name);
        let ghost g = parent@;
        let ghost pm = parent_of(g);
        let n = parent.settings.len();
        let mut i: usize = 0;
        while i < parent.item_names.len()
            invariant
                0 <= i <= parent.item_names@.len(),
                parent.wf(),
                g == parent@,
                pm == parent_of(g),
                n == g.settings.len(),
                r@.name == name@,
                r@.settings == Seq::<(Seq<char>, Seq<char>, bool)>::empty(),
                r@.predicates == Seq::<(Seq<char>, NodeModel)>::empty(),
                r@.presets == Seq::<(Seq<char>, Seq<PresetEntry>)>::empty(),
                r@.parent.names =~= pm.names.take(i as int),
                r@.parent.slots =~= pm.slots.take(i as int),
            decreases parent.item_names@.len() - i,
        {
            proof {
                assert(views(parent.item_names@) == group_item_names(g));
            }
            let ghost names0 = r@.parent.names;
            let ghost slots0 = r@.parent.slots;
            r.parent.push(parent.item_names[i].clone());
            let slot = if i < n {
                Some(i)
            } else {
                assert(g.predicates[i - n].2 == opt_nat(parent.predicates@[i - n].bit));
                parent.predicates[i - n].bit
            };
            r.parent_slots.push(slot);
            assert(r@.parent.names =~= names0.push(pm.names[i as int]));
            assert(r@.parent.slots =~= slots0.push(pm.slots[i as int]));
            i = i + 1;
            assert(r@.parent.names =~= pm.names.take(i as int));
            assert(r@.parent.slots =~= pm.slots.take(i as int));
        }
        r.parent_width = parent.width;
        proof {
            assert(views(parent.item_names@) == group_item_names(g));
            assert(pm.names.take(i as int) =~= pm.names);
            assert(pm.slots.take(i as int) =~= pm.slots);
            lemma_parent_of_wf(g);
        }
        r
    }

    /// Declares a boolean setting. Its bit is its position among the settings.
    pub fn add_bool(&mut self, name: &str, description: &str, default: bool) -> (r: SettingHandle)
        ensures
            final(self)@ == (DraftModel {
                settings: old(self)@.settings.push((name@, description@, default)),
                ..old(self)@
            }),
            r.index == old(self)@.settings.len(),
    {
        let r = SettingHandle { index: self.settings.len() };
        self.settings.push(Setting { name: name.to_owned(), description: description.to_owned(), default });
        assert(self@.settings =~= old(self)@.settings.push((name@, description@, default)));
        r
    }

    /// Declares a predicate. The handle lets later predicates refer to it.
    pub fn add_predicate(&mut self, name: &str, tree: PredicateNode) -> (r: PredicateHandle)
        ensures
            final(self)@ == (DraftModel {
                predicates: old(self)@.predicates.push((name@, node_model(tree))),
                ..old(self)@
            }),
            r.index == old(self)@.predicates.len(),
    {
        let r = PredicateHandle { index: self.predicates.len() };
        let ghost t = node_model(tree);
        self.predicates.push(PredicateDecl { name: name.to_owned(), tree });
        assert(self@.predicates =~= old(self)@.predicates.push((name@, t)));
        r
    }

    /// Declares a preset from its entries, applied in order.
    pub fn add_preset(&mut self, name: &str, entries: Vec<PresetEntry>) -> (r: PresetHandle)
        ensures
            final(self)@ == (DraftModel {
                presets: old(self)@.presets.push((name@, entries@)),
                ..old(self)@
            }),
            r.index == old(self)@.presets.len(),
    {
        let r = PresetHandle { index: self.presets.len() };
        let ghost es = entries@;
        self.presets.push(PresetDecl { name: name.to_owned(), entries });
        assert(self@.presets =~= old(self)@.presets.push((name@, es)));
        r
    }
}

impl SettingGroupBuilder {
    /// Freezes the group: checks every declaration, numbers the bits, compiles
    /// the predicates and expands the presets. Fails, with no partial result,
    /// exactly when `build_error` names a fault.
    pub fn build(self) -> (r: Result<SettingGroup, BuildError>)
        requires
            self@.settings.len() + self@.predicates.len() <= usize::MAX,
            parent_wf(self@.parent),
        ensures
            match r {
                Ok(g) => build_error(self@) is None && g@ == build_model(self@) && g.wf(),
                Err(e) => build_error(self@) == Some((e.kind, e.name@)),
            },
    {
        let ghost d = self@;
        let n = self.settings.len();
        // Settings and predicates share one namespace.
        let mut names: Vec<String> = Vec::new();
        let mut i: usize = 0;
        while i < self.settings.len()
            invariant
                0 <= i <= n,
                n == self.settings@.len(),
                d == self@,
                views(names@) =~= d.settings.take(i as int).map_values(|s: (Seq<char>, Seq<char>, bool)| s.0),
            decreases n - i,
        {
            let ghost before = views(names@);
            names.push(self.settings[i].name.clone());
            assert(views(names@) =~= before.push(d.settings[i as int].0));
            i = i + 1;
            assert(views(names@) =~= d.settings.take(i as int).map_values(|s: (Seq<char>, Seq<char>, bool)| s.0));
        }
        assert(d.settings.take(n as int) =~= d.settings);
        let mut i: usize = 0;
        while i < self.predicates.len()
            invariant
                0 <= i <= self.predicates@.len(),
                n == self.settings@.len(),
                d == self@,
                views(names@) =~= d.settings.map_values(|s: (Seq<char>, Seq<char>, bool)| s.0)
                    + d.predicates.take(i as int).map_values(|p: (Seq<char>, NodeModel)| p.0),
            decreases self.predicates@.len() - i,
        {
            let ghost before = views(names@);
            names.push(self.predicates[i].name.clone());
            assert(views(names@) =~= before.push(d.predicates[i as int].0));
            i = i + 1;
            assert(views(names@) =~= d.settings.map_values(|s: (Seq<char>, Seq<char>, bool)| s.0)
                + d.predicates.take(i as int).map_values(|p: (Seq<char>, NodeModel)| p.0));
        }
        assert(d.predicates.take(i as int) =~= d.predicates);
        assert(views(names@) =~= item_names(d));
        match find_repeat(&names) {
            Some(k) => {
                return Err(BuildError { kind: ErrorKind::DuplicateName, name: names[k].clone() });
            },
            None => {},
        }
        // Presets have a namespace of their own.
        let mut pnames: Vec<String> = Vec::new();
        let mut i: usize = 0;
        while i < self.presets.len()
            invariant
                0 <= i <= self.presets@.len(),
                d == self@,
                views(pnames@) =~= d.presets.take(i as int).map_values(|p: (Seq<char>, Seq<PresetEntry>)| p.0),
            decreases self.presets@.len() - i,
        {
            let ghost before = views(pnames@);
            pnames.push(self.presets[i].name.clone());
            assert(views(pnames@) =~= before.push(d.presets[i as int].0));
            i = i + 1;
            assert(views(pnames@) =~= d.presets.take(i as int).map_values(|p: (Seq<char>, Seq<PresetEntry>)| p.0));
        }
        assert(d.presets.take(i as int) =~= d.presets);
        assert(views(pnames@) =~= preset_names(d));
        match find_repeat(&pnames) {
            Some(k) => {
                return Err(BuildError { kind: ErrorKind::DuplicateName, name: pnames[k].clone() });
            },
            None => {},
        }
        // Predicates: check the leaves, compile, number the simple ones.
        let ghost ts = predicate_trees(d);
        let mut compiled: Vec<CompiledPredicate> = Vec::new();
        let mut simple: usize = 0;
        let mut i: usize = 0;
        while i < self.predicates.len()
            invariant
                0 <= i <= self.predicates@.len(),
                n == self.settings@.len(),
                n + self.predicates@.len() <= usize::MAX,
                d == self@,
                ts == predicate_trees(d),
                first_repeat(item_names(d)) is None,
                first_repeat(preset_names(d)) is None,
                simple <= i,
                compiled@.len() == i,
                exprs_of(compiled@) == compile_all(ts.take(i as int), d.parent),
                simple == count_simple(exprs_of(compiled@)),
                forall|k: int| 0 <= k < i ==> !#[trigger] bad_predicate_at(d)(k),
                forall|k: int| 0 <= k < i ==> #[trigger] compiled_model(compiled@[k])
                    == (d.predicates[k].0, exprs_of(compiled@)[k], predicate_bit(exprs_of(compiled@), n as nat, k)),
                forall|k: int| 0 <= k < i ==> in_range(#[trigger] exprs_of(compiled@)[k], n as nat, d.parent.width),
                parent_wf(d.parent),
            decreases self.predicates@.len() - i,
        {
            let decl = &self.predicates[i];
            assert(d.predicates[i as int] == (decl.name@, node_model(decl.tree)));
            assert(ts[i as int] == node_model(decl.tree));
            assert(ts.take(i as int + 1).drop_last() =~= ts.take(i as int));
            let ghost before = exprs_of(compiled@);
            match compile_node(&decl.tree, &decl.name, n, &self.parent, &self.parent_slots, self.parent_width, &compiled) {
                Err(err) => {
                    proof {
                        lemma_first_where_some(d.predicates.len(), bad_predicate_at(d), i as int);
                    }
                    return Err(err);
                },
                Ok(e) => {
                    proof {
                        lemma_resolve_in_range(d.predicates[i as int].1, n as nat, d.parent, before, d.predicates[i as int].0);
                    }
                    let bit = match &e {
                        Expr::Bit(_) => {
                            let b = n + simple;
                            simple = simple + 1;
                            Some(b)
                        },
                        _ => None,
                    };
                    compiled.push(CompiledPredicate { name: decl.name.clone(), expr: e, bit });
                    proof {
                        let after = exprs_of(compiled@);
                        assert(after =~= before.push(e));
                        assert(after.drop_last() =~= before);
                        assert(after.take(i as int) =~= before);
                        assert forall|k: int| 0 <= k < i implies after.take(k) =~= before.take(k) by {}
                    }
                },
            }
            i = i + 1;
        }
        assert(ts.take(i as int) =~= ts);
        proof {
            lemma_first_where_none(d.predicates.len(), bad_predicate_at(d));
        }
        let ghost ps = preset_entries(d);
        proof {
            lemma_expand_all_shape(ps, n as nat);
        }
        // Presets: check the entries and expand them in order.
        let mut expanded: Vec<CompiledPreset> = Vec::new();
        let mut p: usize = 0;
        while p < self.presets.len()
            invariant
                0 <= p <= self.presets@.len(),
                n == self.settings@.len(),
                d == self@,
                ps == preset_entries(d),
                n as nat == d.settings.len(),
                build_error(d) == (match first_bad_preset(d) {
                    Some(q) => {
                        let es = d.presets[q].1;
                        let k = first_bad_entry(es, q, d.settings.len()).unwrap();
                        Some((entry_error(es[k], q, d.settings.len()).unwrap(), d.presets[q].0))
                    },
                    None => None,
                }),
                expanded@.len() == p,
                forall|q: int| 0 <= q < p ==> (#[trigger] first_bad_entry(d.presets[q].1, q, n as nat)) is None,
                forall|q: int| 0 <= q < p ==> #[trigger] preset_model(expanded@[q])
                    == (d.presets[q].0, expand_all(ps.take(p as int), n as nat)[q]),
                forall|q: int| 0 <= q < p ==> (#[trigger] expanded@[q]).values@.len() == n,
            decreases self.presets@.len() - p,
        {
            let decl = &self.presets[p];
            let ghost es = decl.entries@;
            let ghost done = expand_all(ps.take(p as int), n as nat);
            assert(d.presets[p as int] == (decl.name@, es));
            proof {
                lemma_expand_all_shape(ps.take(p as int), n as nat);
            }
            let mut acc: Vec<Option<bool>> = Vec::new();
            let mut t: usize = 0;
            while t < n
                invariant
                    0 <= t <= n,
                    acc@ =~= Seq::new(t as nat, |k: int| None::<bool>),
                decreases n - t,
            {
                acc.push(None);
                t = t + 1;
            }
            assert(acc@ =~= expand(es.take(0), n as nat, done));
            let mut k: usize = 0;
            while k < decl.entries.len()
                invariant
                    0 <= k <= es.len(),
                    es == decl.entries@,
                    n == self.settings@.len(),
                    done == expand_all(ps.take(p as int), n as nat),
                    done.len() == p,
                    forall|q: int| 0 <= q < p ==> (#[trigger] done[q]).len() == n,
                    forall|q: int| 0 <= q < p ==> #[trigger] preset_model(expanded@[q]) == (d.presets[q].0, done[q]),
                    expanded@.len() == p,
                    acc@ == expand(es.take(k as int), n as nat, done),
                    acc@.len() == n,
                    forall|j: int| 0 <= j < k ==> (#[trigger] entry_error(es[j], p as int, n as nat)) is None,
                    d == self@,
                    n as nat == d.settings.len(),
                    p < d.presets.len(),
                    es == d.presets[p as int].1,
                    d.presets[p as int].0 == decl.name@,
                    build_error(d) == (match first_bad_preset(d) {
                        Some(q) => {
                            let es = d.presets[q].1;
                            let k = first_bad_entry(es, q, d.settings.len()).unwrap();
                            Some((entry_error(es[k], q, d.settings.len()).unwrap(), d.presets[q].0))
                        },
                        None => None,
                    }),
                    forall|q: int| 0 <= q < p ==> (#[trigger] first_bad_entry(d.presets[q].1, q, n as nat)) is None,
                decreases es.len() - k,
            {
                assert(es.take(k as int + 1).drop_last() =~= es.take(k as int));
                let entry = decl.entries[k];
                match entry {
                    PresetEntry::Assert(h, v) => {
                        if h.index >= n {
                            proof {
                                lemma_first_bad_preset(d, p as int, k as int);
                            }
                            return Err(BuildError { kind: ErrorKind::UnknownSetting, name: decl.name.clone() });
                        }
                        acc.set(h.index, Some(v));
                    },
                    PresetEntry::Include(q) => {
                        if q.index >= p {
                            proof {
                                lemma_first_bad_preset(d, p as int, k as int);
                            }
                            return Err(BuildError { kind: ErrorKind::CyclicReference, name: decl.name.clone() });
                        }
                        let ghost acc0 = acc@;
                        let top = &expanded[q.index];
                        assert(preset_model(expanded@[q.index as int]) == (d.presets[q.index as int].0, done[q.index as int]));
                        let mut t: usize = 0;
                        while t < n
                            invariant
                                0 <= t <= n,
                                acc@.len() == n,
                                acc0.len() == n,
                                top.values@.len() == n,
                                forall|j: int| 0 <= j < t ==> acc@[j] == #[trigger] overlay(acc0, top.values@)[j],
                                forall|j: int| t <= j < n ==> #[trigger] acc@[j] == acc0[j],
                            decreases n - t,
                        {
                            match top.values[t] {
                                Some(b) => {
                                    acc.set(t, Some(b));
                                },
                                None => {},
                            }
                            t = t + 1;
                        }
                        assert(acc@ =~= overlay(acc0, top.values@));
                    },
                }
                k = k + 1;
                assert(acc@ =~= expand(es.take(k as int), n as nat, done));
            }
            assert(es.take(k as int) =~= es);
            proof {
                lemma_first_where_none(es.len(), bad_entry_at(es, p as int, n as nat));
                assert(ps.take(p as int + 1).drop_last() =~= ps.take(p as int));
                assert(ps.take(p as int + 1).last() == es);
            }
            expanded.push(CompiledPreset { name: decl.name.clone(), values: acc });
            p = p + 1;
        }
        assert(ps.take(p as int) =~= ps);
        proof {
            lemma_first_where_none(d.presets.len(), bad_preset_at(d));
        }
        let g = SettingGroup {
            name: self.name,
            parent_len: self.parent_width,
            settings: self.settings,
            predicates: compiled,
            presets: expanded,
            width: n + simple,
            item_names: names,
            preset_names: pnames,
        };
        assert(group_item_names(g@) =~= item_names(d));
        assert(model_exprs(g@) =~= compile_all(ts, d.parent));
        assert(group_preset_names(g@) =~= preset_names(d));
        assert(g@.predicates =~= build_model(d).predicates);
        assert(g@.presets =~= build_model(d).presets);
        Ok(g)
    }
}

/// Names of the frozen group's settings, then its predicates.
pub open spec fn group_item_names(g: GroupModel) -> Seq<Seq<char>> {
    g.settings.map_values(|s: (Seq<char>, Seq<char>, bool)| s.0)
        + g.predicates.map_values(|p: (Seq<char>, Expr, Option<nat>)| p.0)
}

pub open spec fn group_preset_names(g: GroupModel) -> Seq<Seq<char>> {
    g.presets.map_values(|p: (Seq<char>, Seq<Option<bool>>)| p.0)
}

/// The bit of the setting or simple predicate named `x`.
pub open spec fn bit_index_spec(g: GroupModel, x: Seq<char>) -> Option<int> {
    match first_index(group_item_names(g), x) {
        Some(i) => if i < g.settings.len() {
            Some(i)
        } else {
            match g.predicates[i - g.settings.len()].2 {
                Some(b) => Some(b as int),
                None => None,
            }
        },
        None => None,
    }
}

/// The value of the predicate named `x` over the given bits.
pub open spec fn evaluate_spec(g: GroupModel, x: Seq<char>, bits: Seq<bool>, parent_bits: Seq<bool>) -> Option<bool> {
    match first_index(group_item_names(g), x) {
        Some(i) => if i < g.settings.len() {
            None
        } else {
            Some(eval(g.predicates[i - g.settings.len()].1, bits, parent_bits))
        },
        None => None,
    }
}

/// The expanded values of the preset named `x`.
pub open spec fn preset_spec(g: GroupModel, x: Seq<char>) -> Option<Seq<Option<bool>>> {
    match first_index(group_preset_names(g), x) {
        Some(p) => Some(g.presets[p].1),
        None => None,
    }
}

/// The settings' defaults.
pub open spec fn defaults(g: GroupModel) -> Seq<bool> {
    g.settings.map_values(|s: (Seq<char>, Seq<char>, bool)| s.2)
}

/// Every setting's bit: the required value where `v` has one, else the default.
pub open spec fn with_defaults(g: GroupModel, v: Seq<Option<bool>>) -> Seq<bool> {
    Seq::new(
        g.settings.len(),
        |k: int|
            match v[k] {
                Some(b) => b,
                None => g.settings[k].2,
            },
    )
}

impl SettingGroup {
    /// Well-formed: what `build` establishes.
    pub closed spec fn wf(&self) -> bool {
        &&& model_wf(self@)
        &&& views(self.item_names@) == group_item_names(self@)
        &&& views(self.preset_names@) == group_preset_names(self@)
    }

    pub fn name(&self) -> (r: String)
        ensures
            r@ == self@.name,
    {
        self.name.clone()
    }

    /// Number of settings, which is the length of a setting bit vector.
    pub fn num_settings(&self) -> (r: usize)
        ensures
            r == self@.settings.len(),
    {
        self.settings.len()
    }

    /// Number of the parent group's settings, the length of its bit vector.
    pub fn parent_len(&self) -> (r: usize)
        ensures
            r == self@.parent_len,
    {
        self.parent_len
    }

    /// Bits taken by settings and simple predicates.
    pub fn bit_width(&self) -> (r: usize)
        ensures
            r == self@.width,
    {
        self.width
    }

    /// A reference to this group's setting or simple predicate `name`, for
    /// the predicates of a child group; it is checked when the child is built.
    pub fn get_bool(&self, name: &str) -> (r: SharedRef)
        ensures
            r@ == name@,
    {
        SharedRef { name: name.to_owned() }
    }

    /// The bit of the setting or simple predicate `name`.
    pub fn bit_index_of(&self, name: &str) -> (r: Option<usize>)
        requires
            self.wf(),
        ensures
            opt_index(r) == bit_index_spec(self@, name@),
    {
        let x = name.to_owned();
        match find_name(&self.item_names, &x) {
            Some(i) => if i < self.settings.len() {
                Some(i)
            } else {
                self.predicates[i - self.settings.len()].bit
            },
            None => None,
        }
    }

    /// Evaluates predicate `name` over this group's setting bits and the
    /// parent's full bit vector (see `full_bits`).
    pub fn evaluate(&self, name: &str, bits: &Vec<bool>, parent_bits: &Vec<bool>) -> (r: Option<bool>)
        requires
            self.wf(),
            bits@.len() == self@.settings.len(),
            parent_bits@.len() == self@.parent_len,
        ensures
            r == evaluate_spec(self@, name@, bits@, parent_bits@),
    {
        let x = name.to_owned();
        match find_name(&self.item_names, &x) {
            Some(i) => if i < self.settings.len() {
                None
            } else {
                let j = i - self.settings.len();
                assert(self@.predicates[j as int].1 == self.predicates@[j as int].expr);
                assert(in_range(self@.predicates[j as int].1, self@.settings.len(), self@.parent_len));
                Some(evaluate_expr(&self.predicates[j].expr, bits, parent_bits))
            },
            None => None,
        }
    }

    /// The values that preset `name` requires, `None` for settings it leaves alone.
    pub fn preset_bitmask(&self, name: &str) -> (r: Option<Vec<Option<bool>>>)
        requires
            self.wf(),
        ensures
            match r {
                Some(v) => preset_spec(self@, name@) == Some(v@),
                None => preset_spec(self@, name@) is None,
            },
    {
        let x = name.to_owned();
        match find_name(&self.preset_names, &x) {
            Some(p) => {
                assert(self@.presets[p as int].1 == self.presets@[p as int].values@);
                Some(self.presets[p].values.clone())
            },
            None => None,
        }
    }

    /// Every setting's bit under preset `name`.
    pub fn preset_bits(&self, name: &str) -> (r: Option<Vec<bool>>)
        requires
            self.wf(),
        ensures
            match r {
                Some(v) => preset_spec(self@, name@) matches Some(m) && v@ == with_defaults(self@, m),
                None => preset_spec(self@, name@) is None,
            },
    {
        match self.preset_bitmask(name) {
            Some(m) => {
                let mut out: Vec<bool> = Vec::new();
                let mut k: usize = 0;
                while k < self.settings.len()
                    invariant
                        0 <= k <= self@.settings.len(),
                        self.wf(),
                        preset_spec(self@, name@) == Some(m@),
                        m@.len() == self@.settings.len(),
                        out@ =~= with_defaults(self@, m@).take(k as int),
                    decreases self@.settings.len() - k,
                {
                    let b = match m[k] {
                        Some(b) => b,
                        None => self.settings[k].default,
                    };
                    out.push(b);
                    k = k + 1;
                    assert(out@ =~= with_defaults(self@, m@).take(k as int));
                }
                Some(out)
            },
            None => None,
        }
    }

    /// This group's full bit vector: the setting bits, then the value of each
    /// simple predicate at its own bit.
    pub fn full_bits(&self, bits: &Vec<bool>, parent_bits: &Vec<bool>) -> (r: Vec<bool>)
        requires
            self.wf(),
            bits@.len() == self@.settings.len(),
            parent_bits@.len() == self@.parent_len,
        ensures
            r@ == bits@ + simple_values(model_exprs(self@), bits@, parent_bits@),
            r@.len() == self@.width,
            forall|j: int| 0 <= j < self@.predicates.len()
                ==> (#[trigger] self@.predicates[j].2 matches Some(b)
                    ==> r@[b as int] == eval(self@.predicates[j].1, bits@, parent_bits@)),
    {
        let ghost es = model_exprs(self@);
        let mut out: Vec<bool> = Vec::new();
        let mut k: usize = 0;
        while k < bits.len()
            invariant
                0 <= k <= bits@.len(),
                out@ =~= bits@.take(k as int),
            decreases bits@.len() - k,
        {
            out.push(bits[k]);
            k = k + 1;
            assert(out@ =~= bits@.take(k as int));
        }
        assert(bits@.take(k as int) =~= bits@);
        assert(simple_values(es.take(0), bits@, parent_bits@) =~= Seq::<bool>::empty());
        let mut i: usize = 0;
        while i < self.predicates.len()
            invariant
                0 <= i <= self.predicates@.len(),
                self.wf(),
                es == model_exprs(self@),
                bits@.len() == self@.settings.len(),
                parent_bits@.len() == self@.parent_len,
                out@ =~= bits@ + simple_values(es.take(i as int), bits@, parent_bits@),
            decreases self.predicates@.len() - i,
        {
            let e = &self.predicates[i].expr;
            assert(es[i as int] == *e);
            assert(es.take(i as int + 1).drop_last() =~= es.take(i as int));
            assert(in_range(self@.predicates[i as int].1, self@.settings.len(), self@.parent_len));
            match e {
                Expr::Bit(_) => {
                    let v = evaluate_expr(e, bits, parent_bits);
                    out.push(v);
                },
                _ => {},
            }
            i = i + 1;
        }
        assert(es.take(i as int) =~= es);
        proof {
            lemma_simple_values_len(es, bits@, parent_bits@);
            assert forall|j: int| 0 <= j < self@.predicates.len()
                implies (#[trigger] self@.predicates[j].2 matches Some(b)
                    ==> out@[b as int] == eval(self@.predicates[j].1, bits@, parent_bits@)) by {
                assert(self@.predicates[j].2 == predicate_bit(es, self@.settings.len(), j));
                if is_simple(es[j]) {
                    lemma_simple_values_at(es, j, bits@, parent_bits@);
                }
            }
        }
        out
    }

    /// Every setting's default bit.
    pub fn default_bits(&self) -> (r: Vec<bool>)
        ensures
            r@ == defaults(self@),
    {
        let mut out: Vec<bool> = Vec::new();
        let mut k: usize = 0;
        while k < self.settings.len()
            invariant
                0 <= k <= self@.settings.len(),
                out@ =~= defaults(self@).take(k as int),
            decreases self@.settings.len() - k,
        {
            out.push(self.settings[k].default);
            k = k + 1;
            assert(out@ =~= defaults(self@).take(k as int));
        }
        assert(out@ =~= defaults(self@));
        out
    }
}

} // verus!
