//! The round trip of the projection: a bounded context written into a tree
//! that held nothing of it reads back with the same content.
use vstd::prelude::*;
use crate::aggregate::AggregateModel;
use crate::aggregate_layer::LayerModel;
use crate::bounded_context::BoundedContextModel;
use crate::bounded_context_repository::{
    aggregate_names, context_path, kind_components, kind_names, layer_components, layer_dirs_named,
    layers_readable, module_files, read_aggregate, read_layer, read_model, reserved_name, written,
};
use crate::index_file::{component_extension, index_file_name, last_dot, stem};
use crate::layer_component::ComponentModel;
use crate::layout::{
    aggregate_dirs, aggregate_files, component_file, context_dir, kind_dir, layer_dirs,
    layer_files, planned_dirs, planned_files, planned_indexes, index_path,
};
use crate::source_tree::{is_child, lemma_children_set, lemma_file_names_contains, TreePath, TreeView};
use crate::taxonomy::{lemma_kind_token_round_trip, lemma_layer_token_round_trip, ComponentType, LayerName};

verus! {

broadcast use vstd::seq_lib::group_seq_properties;

/// An element of a flattened sequence is an element of one of its parts.
pub proof fn lemma_flatten_contains<A>(s: Seq<Seq<A>>, x: A)
    ensures
        s.flatten().contains(x) <==> exists|i: int, j: int|
            0 <= i < s.len() && 0 <= j < s[i].len() && #[trigger] s[i][j] == x,
    decreases s.len(),
{
    if s.len() > 0 {
        let r = s.drop_first();
        lemma_flatten_contains(r, x);
        assert(s.flatten() == s[0] + r.flatten());
        if s.flatten().contains(x) {
            let m = choose|m: int| 0 <= m < s.flatten().len() && s.flatten()[m] == x;
            if m < s[0].len() {
                assert(s[0][m] == x);
            } else {
                assert(r.flatten()[m - s[0].len()] == x);
                let (i, j) = choose|i: int, j: int| 0 <= i < r.len() && 0 <= j < r[i].len() && #[trigger] r[i][j] == x;
                assert(s[i + 1][j] == x);
            }
        }
        if exists|i: int, j: int| 0 <= i < s.len() && 0 <= j < s[i].len() && #[trigger] s[i][j] == x {
            let (i, j) = choose|i: int, j: int| 0 <= i < s.len() && 0 <= j < s[i].len() && #[trigger] s[i][j] == x;
            if i == 0 {
                assert(s.flatten()[j] == x);
            } else {
                assert(r[i - 1][j] == x);
                assert(r.flatten().contains(x));
                let m = choose|m: int| 0 <= m < r.flatten().len() && r.flatten()[m] == x;
                assert(s.flatten()[s[0].len() + m] == x);
            }
        }
    }
}

/// The directories a layer adds: its own and one per component kind.
pub proof fn lemma_layer_dirs_contains(ap: TreePath, l: LayerModel, p: TreePath)
    ensures
        layer_dirs(ap, l).contains(p) <==> p == ap.push(l.name.token()) || exists|k: int|
            0 <= k < l.components.len() && p == kind_dir(ap.push(l.name.token()), #[trigger] l.components[k]),
{
    let s = layer_dirs(ap, l);
    if s.contains(p) {
        let m = choose|m: int| 0 <= m < s.len() && s[m] == p;
        if m > 0 {
            assert(p == kind_dir(ap.push(l.name.token()), l.components[m - 1]));
        }
    }
    if p == ap.push(l.name.token()) {
        assert(s[0] == p);
    }
    if exists|k: int| 0 <= k < l.components.len() && p == kind_dir(ap.push(l.name.token()), #[trigger] l.components[k]) {
        let k = choose|k: int| 0 <= k < l.components.len() && p == kind_dir(ap.push(l.name.token()), #[trigger] l.components[k]);
        assert(s[k + 1] == p);
    }
}

/// The directories an aggregate adds: its own and those of its layers.
pub proof fn lemma_aggregate_dirs_contains(bp: TreePath, a: AggregateModel, p: TreePath)
    ensures
        aggregate_dirs(bp, a).contains(p) <==> p == bp.push(a.id) || exists|j: int|
            0 <= j < a.layers.len() && #[trigger] layer_dirs(bp.push(a.id), a.layers[j]).contains(p),
{
    let f = |l: LayerModel| layer_dirs(bp.push(a.id), l);
    let parts = a.layers.map_values(f);
    lemma_flatten_contains(parts, p);
    let s = aggregate_dirs(bp, a);
    assert(s == seq![bp.push(a.id)] + parts.flatten());
    if s.contains(p) && p != bp.push(a.id) {
        let m = choose|m: int| 0 <= m < s.len() && s[m] == p;
        assert(parts.flatten()[m - 1] == p);
        let (j, k) = choose|j: int, k: int| 0 <= j < parts.len() && 0 <= k < parts[j].len() && #[trigger] parts[j][k] == p;
        assert(layer_dirs(bp.push(a.id), a.layers[j]).contains(p));
    }
    if p == bp.push(a.id) {
        assert(s[0] == p);
    }
    if exists|j: int| 0 <= j < a.layers.len() && #[trigger] layer_dirs(bp.push(a.id), a.layers[j]).contains(p) {
        let j = choose|j: int| 0 <= j < a.layers.len() && #[trigger] layer_dirs(bp.push(a.id), a.layers[j]).contains(p);
        let k = choose|k: int| 0 <= k < parts[j].len() && parts[j][k] == p;
        assert(parts.flatten().contains(p));
        let m = choose|m: int| 0 <= m < parts.flatten().len() && parts.flatten()[m] == p;
        assert(s[m + 1] == p);
    }
}

/// The directories writing a bounded context makes sure of: its own and those of its aggregates.
pub proof fn lemma_planned_dirs_contains(b: BoundedContextModel, p: TreePath)
    ensures
        planned_dirs(b).contains(p) <==> p == context_dir(b) || exists|i: int|
            0 <= i < b.aggregates.len() && #[trigger] aggregate_dirs(context_dir(b), b.aggregates[i]).contains(p),
{
    let f = |a: AggregateModel| aggregate_dirs(context_dir(b), a);
    let parts = b.aggregates.map_values(f);
    lemma_flatten_contains(parts, p);
    let s = planned_dirs(b);
    assert(s == seq![context_dir(b)] + parts.flatten());
    if s.contains(p) && p != context_dir(b) {
        let m = choose|m: int| 0 <= m < s.len() && s[m] == p;
        assert(parts.flatten()[m - 1] == p);
        let (i, k) = choose|i: int, k: int| 0 <= i < parts.len() && 0 <= k < parts[i].len() && #[trigger] parts[i][k] == p;
        assert(aggregate_dirs(context_dir(b), b.aggregates[i]).contains(p));
    }
    if p == context_dir(b) {
        assert(s[0] == p);
    }
    if exists|i: int| 0 <= i < b.aggregates.len() && #[trigger] aggregate_dirs(context_dir(b), b.aggregates[i]).contains(p) {
        let i = choose|i: int| 0 <= i < b.aggregates.len() && #[trigger] aggregate_dirs(context_dir(b), b.aggregates[i]).contains(p);
        let k = choose|k: int| 0 <= k < parts[i].len() && parts[i][k] == p;
        assert(parts.flatten().contains(p));
        let m = choose|m: int| 0 <= m < parts.flatten().len() && parts.flatten()[m] == p;
        assert(s[m + 1] == p);
    }
}

/// The component files writing a bounded context makes sure of.
pub proof fn lemma_planned_files_contains(b: BoundedContextModel, p: TreePath)
    ensures
        planned_files(b).contains(p) <==> exists|i: int, j: int, k: int|
            0 <= i < b.aggregates.len() && 0 <= j < b.aggregates[i].layers.len() && 0 <= k
                < b.aggregates[i].layers[j].components.len() && p == component_file(
                context_dir(b).push(b.aggregates[i].id).push(b.aggregates[i].layers[j].name.token()),
                #[trigger] b.aggregates[i].layers[j].components[k],
            ),
{
    let bp = context_dir(b);
    let f = |a: AggregateModel| aggregate_files(bp, a);
    let parts = b.aggregates.map_values(f);
    lemma_flatten_contains(parts, p);
    if planned_files(b).contains(p) {
        let (i, m) = choose|i: int, m: int| 0 <= i < parts.len() && 0 <= m < parts[i].len() && #[trigger] parts[i][m] == p;
        let a = b.aggregates[i];
        let g = |l: LayerModel| layer_files(bp.push(a.id), l);
        let lp = a.layers.map_values(g);
        lemma_flatten_contains(lp, p);
        assert(lp.flatten()[m] == p);
        let (j, k) = choose|j: int, k: int| 0 <= j < lp.len() && 0 <= k < lp[j].len() && #[trigger] lp[j][k] == p;
        assert(p == component_file(bp.push(a.id).push(a.layers[j].name.token()), a.layers[j].components[k]));
    }
    if exists|i: int, j: int, k: int|
        0 <= i < b.aggregates.len() && 0 <= j < b.aggregates[i].layers.len() && 0 <= k
            < b.aggregates[i].layers[j].components.len() && p == component_file(
            bp.push(b.aggregates[i].id).push(b.aggregates[i].layers[j].name.token()),
            #[trigger] b.aggregates[i].layers[j].components[k],
        ) {
        let (i, j, k) = choose|i: int, j: int, k: int|
            0 <= i < b.aggregates.len() && 0 <= j < b.aggregates[i].layers.len() && 0 <= k
                < b.aggregates[i].layers[j].components.len() && p == component_file(
                bp.push(b.aggregates[i].id).push(b.aggregates[i].layers[j].name.token()),
                #[trigger] b.aggregates[i].layers[j].components[k],
            );
        let a = b.aggregates[i];
        let g = |l: LayerModel| layer_files(bp.push(a.id), l);
        let lp = a.layers.map_values(g);
        lemma_flatten_contains(lp, p);
        assert(lp[j][k] == p);
        let m = choose|m: int| 0 <= m < lp.flatten().len() && lp.flatten()[m] == p;
        assert(parts[i][m] == p);
    }
}

/// The aggregate directories a write plans: one per aggregate identity.
pub proof fn lemma_planned_aggregate_dir(b: BoundedContextModel, a: Seq<char>)
    ensures
        planned_dirs(b).contains(context_dir(b).push(a)) <==> exists|i: int|
            0 <= i < b.aggregates.len() && (#[trigger] b.aggregates[i]).id == a,
{
    let p = context_dir(b).push(a);
    assert(context_dir(b).len() == 1);
    assert(p.len() == 2);
    lemma_planned_dirs_contains(b, p);
    if planned_dirs(b).contains(p) {
        assert(p != context_dir(b));
        let i = choose|i: int| 0 <= i < b.aggregates.len() && #[trigger] aggregate_dirs(context_dir(b), b.aggregates[i]).contains(p);
        let ai = b.aggregates[i];
        lemma_aggregate_dirs_contains(context_dir(b), ai, p);
        if p != context_dir(b).push(ai.id) {
            let j = choose|j: int| 0 <= j < ai.layers.len() && #[trigger] layer_dirs(context_dir(b).push(ai.id), ai.layers[j]).contains(p);
            lemma_layer_dirs_contains(context_dir(b).push(ai.id), ai.layers[j], p);
            if p != context_dir(b).push(ai.id).push(ai.layers[j].name.token()) {
                let k = choose|k: int| 0 <= k < ai.layers[j].components.len() && p == kind_dir(context_dir(b).push(ai.id).push(ai.layers[j].name.token()), #[trigger] ai.layers[j].components[k]);
                assert(p.len() == 4);
            }
            assert(p.len() == 3);
        }
        assert(p[1] == ai.id);
    }
    if exists|i: int| 0 <= i < b.aggregates.len() && (#[trigger] b.aggregates[i]).id == a {
        let i = choose|i: int| 0 <= i < b.aggregates.len() && (#[trigger] b.aggregates[i]).id == a;
        lemma_aggregate_dirs_contains(context_dir(b), b.aggregates[i], p);
        assert(aggregate_dirs(context_dir(b), b.aggregates[i]).contains(p));
    }
}

/// The layer directories a write plans: one per layer name of each aggregate.
pub proof fn lemma_planned_layer_dir(b: BoundedContextModel, a: Seq<char>, x: Seq<char>)
    ensures
        planned_dirs(b).contains(context_dir(b).push(a).push(x)) <==> exists|i: int, j: int|
            0 <= i < b.aggregates.len() && 0 <= j < b.aggregates[i].layers.len() && b.aggregates[i].id == a
                && (#[trigger] b.aggregates[i].layers[j]).name.token() == x,
{
    let p = context_dir(b).push(a).push(x);
    assert(context_dir(b).len() == 1);
    assert(p.len() == 3);
    lemma_planned_dirs_contains(b, p);
    if planned_dirs(b).contains(p) {
        assert(p != context_dir(b));
        let i = choose|i: int| 0 <= i < b.aggregates.len() && #[trigger] aggregate_dirs(context_dir(b), b.aggregates[i]).contains(p);
        let ai = b.aggregates[i];
        let ap = context_dir(b).push(ai.id);
        lemma_aggregate_dirs_contains(context_dir(b), ai, p);
        assert(p != ap);
        let j = choose|j: int| 0 <= j < ai.layers.len() && #[trigger] layer_dirs(ap, ai.layers[j]).contains(p);
        lemma_layer_dirs_contains(ap, ai.layers[j], p);
        if p != ap.push(ai.layers[j].name.token()) {
            let k = choose|k: int| 0 <= k < ai.layers[j].components.len() && p == kind_dir(ap.push(ai.layers[j].name.token()), #[trigger] ai.layers[j].components[k]);
            assert(p.len() == 4);
        }
        assert(p[1] == ai.id);
        assert(p[2] == ai.layers[j].name.token());
    }
    if exists|i: int, j: int|
        0 <= i < b.aggregates.len() && 0 <= j < b.aggregates[i].layers.len() && b.aggregates[i].id == a
            && (#[trigger] b.aggregates[i].layers[j]).name.token() == x {
        let (i, j) = choose|i: int, j: int|
            0 <= i < b.aggregates.len() && 0 <= j < b.aggregates[i].layers.len() && b.aggregates[i].id == a
                && (#[trigger] b.aggregates[i].layers[j]).name.token() == x;
        let ai = b.aggregates[i];
        let ap = context_dir(b).push(ai.id);
        lemma_layer_dirs_contains(ap, ai.layers[j], p);
        lemma_aggregate_dirs_contains(context_dir(b), ai, p);
        assert(layer_dirs(ap, ai.layers[j]).contains(p));
        assert(aggregate_dirs(context_dir(b), b.aggregates[i]).contains(p));
    }
}

/// The component-kind directories a write plans: one per kind in each layer.
pub proof fn lemma_planned_kind_dir(b: BoundedContextModel, a: Seq<char>, x: Seq<char>, y: Seq<char>)
    ensures
        planned_dirs(b).contains(context_dir(b).push(a).push(x).push(y)) <==> exists|i: int, j: int, k: int|
            0 <= i < b.aggregates.len() && 0 <= j < b.aggregates[i].layers.len() && 0 <= k
                < b.aggregates[i].layers[j].components.len() && b.aggregates[i].id == a
                && b.aggregates[i].layers[j].name.token() == x
                && (#[trigger] b.aggregates[i].layers[j].components[k]).kind.token() == y,
{
    let p = context_dir(b).push(a).push(x).push(y);
    assert(context_dir(b).len() == 1);
    assert(p.len() == 4);
    lemma_planned_dirs_contains(b, p);
    if planned_dirs(b).contains(p) {
        assert(p != context_dir(b));
        let i = choose|i: int| 0 <= i < b.aggregates.len() && #[trigger] aggregate_dirs(context_dir(b), b.aggregates[i]).contains(p);
        let ai = b.aggregates[i];
        let ap = context_dir(b).push(ai.id);
        lemma_aggregate_dirs_contains(context_dir(b), ai, p);
        assert(p != ap);
        let j = choose|j: int| 0 <= j < ai.layers.len() && #[trigger] layer_dirs(ap, ai.layers[j]).contains(p);
        lemma_layer_dirs_contains(ap, ai.layers[j], p);
        assert(p != ap.push(ai.layers[j].name.token()));
        let k = choose|k: int| 0 <= k < ai.layers[j].components.len() && p == kind_dir(ap.push(ai.layers[j].name.token()), #[trigger] ai.layers[j].components[k]);
        assert(p[1] == ai.id);
        assert(p[2] == ai.layers[j].name.token());
        assert(p[3] == ai.layers[j].components[k].kind.token());
    }
    if exists|i: int, j: int, k: int|
        0 <= i < b.aggregates.len() && 0 <= j < b.aggregates[i].layers.len() && 0 <= k
            < b.aggregates[i].layers[j].components.len() && b.aggregates[i].id == a
            && b.aggregates[i].layers[j].name.token() == x
            && (#[trigger] b.aggregates[i].layers[j].components[k]).kind.token() == y {
        let (i, j, k) = choose|i: int, j: int, k: int|
            0 <= i < b.aggregates.len() && 0 <= j < b.aggregates[i].layers.len() && 0 <= k
                < b.aggregates[i].layers[j].components.len() && b.aggregates[i].id == a
                && b.aggregates[i].layers[j].name.token() == x
                && (#[trigger] b.aggregates[i].layers[j].components[k]).kind.token() == y;
        let ai = b.aggregates[i];
        let ap = context_dir(b).push(ai.id);
        lemma_layer_dirs_contains(ap, ai.layers[j], p);
        lemma_aggregate_dirs_contains(context_dir(b), ai, p);
        assert(p == kind_dir(ap.push(ai.layers[j].name.token()), ai.layers[j].components[k]));
        assert(layer_dirs(ap, ai.layers[j]).contains(p));
        assert(aggregate_dirs(context_dir(b), b.aggregates[i]).contains(p));
    }
}

/// Nothing of the tree lies in or below the directory of bounded context `id`.
pub open spec fn untouched(t: TreeView, id: Seq<char>) -> bool {
    &&& forall|p: TreePath| #[trigger] t.has_dir(p) ==> p.len() == 0 || p[0] != id
    &&& forall|p: TreePath| #[trigger] t.has_file(p) ==> p.len() == 0 || p[0] != id
}

/// No aggregate takes the name that reading reserves.
pub open spec fn round_trip_names(b: BoundedContextModel) -> bool {
    forall|i: int| 0 <= i < b.aggregates.len() ==> (#[trigger] b.aggregates[i]).id != reserved_name()
}

/// Some aggregate of `m` has identity `a`.
pub open spec fn holds_aggregate(m: BoundedContextModel, a: Seq<char>) -> bool {
    exists|i: int| 0 <= i < m.aggregates.len() && (#[trigger] m.aggregates[i]).id == a
}

/// Some aggregate `a` of `m` has a layer named `l`.
pub open spec fn holds_layer(m: BoundedContextModel, a: Seq<char>, l: LayerName) -> bool {
    exists|i: int, j: int|
        0 <= i < m.aggregates.len() && 0 <= j < m.aggregates[i].layers.len() && m.aggregates[i].id == a
            && (#[trigger] m.aggregates[i].layers[j]).name == l
}

/// Some layer `l` of some aggregate `a` of `m` holds component `c`.
pub open spec fn holds_component(m: BoundedContextModel, a: Seq<char>, l: LayerName, c: ComponentModel) -> bool {
    exists|i: int, j: int, k: int|
        0 <= i < m.aggregates.len() && 0 <= j < m.aggregates[i].layers.len() && 0 <= k
            < m.aggregates[i].layers[j].components.len() && m.aggregates[i].id == a
            && m.aggregates[i].layers[j].name == l && (#[trigger] m.aggregates[i].layers[j].components[k]) == c
}

/// The same bounded context up to the order of aggregates, layers and
/// components (and up to repeats, which the tree cannot tell apart).
pub open spec fn same_content(m1: BoundedContextModel, m2: BoundedContextModel) -> bool {
    &&& m1.id == m2.id
    &&& forall|a: Seq<char>| holds_aggregate(m1, a) <==> holds_aggregate(m2, a)
    &&& forall|a: Seq<char>, l: LayerName| holds_layer(m1, a, l) <==> holds_layer(m2, a, l)
    &&& forall|a: Seq<char>, l: LayerName, c: ComponentModel|
        holds_component(m1, a, l, c) <==> holds_component(m2, a, l, c)
}

proof fn lemma_stem_of_component_file(n: Seq<char>)
    requires
        n.len() > 0,
    ensures
        stem(n + component_extension()) == n,
{
    reveal_strlit(".rs");
    reveal_strlit("..");
    let f = n + component_extension();
    assert(f.len() == n.len() + 3);
    assert(f.last() == 's');
    assert(f.drop_last().last() == 'r');
    assert(f.drop_last().drop_last().last() == '.');
    assert(last_dot(f) == last_dot(f.drop_last()));
    assert(last_dot(f.drop_last()) == last_dot(f.drop_last().drop_last()));
    assert(last_dot(f.drop_last().drop_last()) == n.len());
    assert(f != ".."@);
    assert(f.subrange(0, n.len() as int) =~= n);
}

proof fn lemma_segment_not_empty(n: Seq<char>)
    requires
        crate::text::is_path_segment(n),
    ensures
        n.len() > 0,
{
}

/// After the write, what lies below the context directory is what was planned.
proof fn lemma_written_under(b: BoundedContextModel, t0: TreeView, t1: TreeView, p: TreePath)
    requires
        untouched(t0, b.id),
        written(t0, b, t1),
        p.len() >= 1,
        p[0] == b.id,
    ensures
        t1.has_dir(p) <==> planned_dirs(b).contains(p),
        t1.has_file(p) <==> planned_files(b).contains(p) || planned_indexes(b).contains(p),
{
    assert(t1.dir_set().contains(p) <==> t0.dir_set().contains(p) || planned_dirs(b).to_set().contains(p));
    assert(t1.file_set().contains(p) <==> t0.file_set().contains(p) || planned_files(b).to_set().contains(p) || planned_indexes(b).to_set().contains(p));
    if t0.has_dir(p) {
        assert(false);
    }
    if t0.has_file(p) {
        assert(false);
    }
}

/// The aggregate directories read back are the aggregate identities written.
proof fn lemma_read_aggregate_names(b: BoundedContextModel, t0: TreeView, t1: TreeView, a: Seq<char>)
    requires
        untouched(t0, b.id),
        written(t0, b, t1),
        round_trip_names(b),
    ensures
        aggregate_names(t1, b.id).contains(a) <==> holds_aggregate(b, a),
{
    let bp = context_path(b.id);
    assert(bp == context_dir(b));
    let pred = |n: Seq<char>| n != reserved_name();
    let ch = t1.children(bp);
    lemma_children_set(t1, bp);
    assert(ch.contains(a) <==> ch.to_set().contains(a));
    assert(ch.contains(a) <==> t1.has_dir(bp.push(a)));
    lemma_written_under(b, t0, t1, bp.push(a));
    lemma_planned_aggregate_dir(b, a);
    if aggregate_names(t1, b.id).contains(a) {
        ch.lemma_filter_contains_rev(pred, a);
    }
    if holds_aggregate(b, a) {
        let i = choose|i: int| 0 <= i < b.aggregates.len() && (#[trigger] b.aggregates[i]).id == a;
        assert(a != reserved_name());
        let k = choose|k: int| 0 <= k < ch.len() && ch[k] == a;
        ch.lemma_filter_contains(pred, k);
    }
}

/// The layer directories of aggregate `a` read back are the tokens of its layers.
proof fn lemma_read_layer_dirs(b: BoundedContextModel, t0: TreeView, t1: TreeView, a: Seq<char>, n: Seq<char>)
    requires
        untouched(t0, b.id),
        written(t0, b, t1),
    ensures
        t1.children(context_path(b.id).push(a)).contains(n) <==> exists|i: int, j: int|
            0 <= i < b.aggregates.len() && 0 <= j < b.aggregates[i].layers.len() && b.aggregates[i].id == a
                && (#[trigger] b.aggregates[i].layers[j]).name.token() == n,
{
    let ap = context_path(b.id).push(a);
    assert(context_path(b.id) == context_dir(b));
    lemma_children_set(t1, ap);
    assert(t1.children(ap).contains(n) <==> t1.children(ap).to_set().contains(n));
    lemma_written_under(b, t0, t1, ap.push(n));
    lemma_planned_layer_dir(b, a, n);
}

/// The kind directories of layer directory `x` of aggregate `a` read back are
/// the tokens of the kinds of its components.
proof fn lemma_read_kind_dirs(b: BoundedContextModel, t0: TreeView, t1: TreeView, a: Seq<char>, x: Seq<char>, n: Seq<char>)
    requires
        untouched(t0, b.id),
        written(t0, b, t1),
    ensures
        t1.children(context_path(b.id).push(a).push(x)).contains(n) <==> exists|i: int, j: int, k: int|
            0 <= i < b.aggregates.len() && 0 <= j < b.aggregates[i].layers.len() && 0 <= k
                < b.aggregates[i].layers[j].components.len() && b.aggregates[i].id == a
                && b.aggregates[i].layers[j].name.token() == x
                && (#[trigger] b.aggregates[i].layers[j].components[k]).kind.token() == n,
{
    let lp = context_path(b.id).push(a).push(x);
    assert(context_path(b.id) == context_dir(b));
    lemma_children_set(t1, lp);
    assert(t1.children(lp).contains(n) <==> t1.children(lp).to_set().contains(n));
    lemma_written_under(b, t0, t1, lp.push(n));
    lemma_planned_kind_dir(b, a, x, n);
}

/// The component files of kind directory `y` read back are the files of the
/// components of that kind.
proof fn lemma_read_module_files(
    b: BoundedContextModel,
    t0: TreeView,
    t1: TreeView,
    a: Seq<char>,
    x: Seq<char>,
    y: Seq<char>,
    f: Seq<char>,
)
    requires
        untouched(t0, b.id),
        written(t0, b, t1),
        round_trip_names(b),
    ensures
        module_files(t1, context_path(b.id).push(a).push(x).push(y)).contains(f) <==> exists|i: int, j: int, k: int|
            0 <= i < b.aggregates.len() && 0 <= j < b.aggregates[i].layers.len() && 0 <= k
                < b.aggregates[i].layers[j].components.len() && b.aggregates[i].id == a
                && b.aggregates[i].layers[j].name.token() == x
                && b.aggregates[i].layers[j].components[k].kind.token() == y
                && f == (#[trigger] b.aggregates[i].layers[j].components[k]).name + component_extension(),
{
    let bp = context_path(b.id);
    assert(bp == context_dir(b));
    let kp = bp.push(a).push(x).push(y);
    let pred = |g: Seq<char>| g != index_file_name();
    let fnames = t1.file_names(kp);
    lemma_file_names_contains(t1, kp, f);
    lemma_written_under(b, t0, t1, kp.push(f));
    lemma_planned_files_contains(b, kp.push(f));
    if module_files(t1, kp).contains(f) {
        fnames.lemma_filter_contains_rev(pred, f);
        if planned_indexes(b).contains(kp.push(f)) {
            let m = choose|m: int| 0 <= m < planned_indexes(b).len() && planned_indexes(b)[m] == kp.push(f);
            assert(kp.push(f) == index_path(planned_dirs(b)[m]));
            assert(kp.push(f).last() == f);
            assert(f == index_file_name());
        }
        let (i, j, k) = choose|i: int, j: int, k: int|
            0 <= i < b.aggregates.len() && 0 <= j < b.aggregates[i].layers.len() && 0 <= k
                < b.aggregates[i].layers[j].components.len() && kp.push(f) == component_file(
                bp.push(b.aggregates[i].id).push(b.aggregates[i].layers[j].name.token()),
                #[trigger] b.aggregates[i].layers[j].components[k],
            );
        let c = b.aggregates[i].layers[j].components[k];
        let q = component_file(bp.push(b.aggregates[i].id).push(b.aggregates[i].layers[j].name.token()), c);
        assert(q[1] == b.aggregates[i].id);
        assert(q[2] == b.aggregates[i].layers[j].name.token());
        assert(q[3] == c.kind.token());
        assert(q[4] == c.name + component_extension());
        assert(kp.push(f)[4] == f);
    }
    if exists|i: int, j: int, k: int|
        0 <= i < b.aggregates.len() && 0 <= j < b.aggregates[i].layers.len() && 0 <= k
            < b.aggregates[i].layers[j].components.len() && b.aggregates[i].id == a
            && b.aggregates[i].layers[j].name.token() == x
            && b.aggregates[i].layers[j].components[k].kind.token() == y
            && f == (#[trigger] b.aggregates[i].layers[j].components[k]).name + component_extension() {
        let (i, j, k) = choose|i: int, j: int, k: int|
            0 <= i < b.aggregates.len() && 0 <= j < b.aggregates[i].layers.len() && 0 <= k
                < b.aggregates[i].layers[j].components.len() && b.aggregates[i].id == a
                && b.aggregates[i].layers[j].name.token() == x
                && b.aggregates[i].layers[j].components[k].kind.token() == y
                && f == (#[trigger] b.aggregates[i].layers[j].components[k]).name + component_extension();
        let c = b.aggregates[i].layers[j].components[k];
        assert(kp.push(f) =~= component_file(bp.push(b.aggregates[i].id).push(b.aggregates[i].layers[j].name.token()), c));
        assert(crate::layout::component_name_ok(c.name));
        assert(fnames.contains(f));
        let m = choose|m: int| 0 <= m < fnames.len() && fnames[m] == f;
        fnames.lemma_filter_contains(pred, m);
    }
}

/// Writing a bounded context into a tree that holds nothing in or below its
/// directory, and reading it back, gives the same bounded context up to the
/// order of aggregates, layers and components. No aggregate may be named
/// `core`, the name reading skips.
pub proof fn lemma_round_trip(b: BoundedContextModel, t0: TreeView, t1: TreeView)
    requires
        untouched(t0, b.id),
        round_trip_names(b),
        written(t0, b, t1),
    ensures
        t1.has_dir(context_path(b.id)),
        layers_readable(t1, b.id),
        same_content(read_model(t1, b.id), b),
{
    let id = b.id;
    let bp = context_path(id);
    let r = read_model(t1, id);
    let an = aggregate_names(t1, id);
    assert(bp == context_dir(b));
    assert(bp.len() == 1 && bp[0] == id);
    lemma_written_under(b, t0, t1, bp);
    lemma_planned_dirs_contains(b, bp);
    assert forall|x: int| 0 <= x < an.len() implies #[trigger] layer_dirs_named(t1, bp.push(an[x])) by {
        let ch = t1.children(bp.push(an[x]));
        assert forall|y: int| 0 <= y < ch.len() implies (#[trigger] LayerName::parse(ch[y])) is Some by {
            lemma_read_layer_dirs(b, t0, t1, an[x], ch[y]);
            assert(ch.contains(ch[y]));
            let (i, j) = choose|i: int, j: int|
                0 <= i < b.aggregates.len() && 0 <= j < b.aggregates[i].layers.len() && b.aggregates[i].id == an[x]
                    && (#[trigger] b.aggregates[i].layers[j]).name.token() == ch[y];
            lemma_layer_token_round_trip(b.aggregates[i].layers[j].name);
        }
    }
    assert forall|a: Seq<char>| holds_aggregate(r, a) <==> holds_aggregate(b, a) by {
        lemma_read_aggregate_names(b, t0, t1, a);
        if holds_aggregate(r, a) {
            let x = choose|x: int| 0 <= x < r.aggregates.len() && (#[trigger] r.aggregates[x]).id == a;
            assert(r.aggregates[x] == read_aggregate(t1, bp, an[x]));
            assert(an.contains(a));
        }
        if an.contains(a) {
            let x = choose|x: int| 0 <= x < an.len() && an[x] == a;
            assert(r.aggregates[x] == read_aggregate(t1, bp, an[x]));
        }
    }
    assert forall|a: Seq<char>, l: LayerName| holds_layer(r, a, l) <==> holds_layer(b, a, l) by {
        if holds_layer(r, a, l) {
            let (x, y) = choose|x: int, y: int|
                0 <= x < r.aggregates.len() && 0 <= y < r.aggregates[x].layers.len() && r.aggregates[x].id == a
                    && (#[trigger] r.aggregates[x].layers[y]).name == l;
            assert(r.aggregates[x] == read_aggregate(t1, bp, an[x]));
            let ch = t1.children(bp.push(a));
            assert(r.aggregates[x].layers[y] == read_layer(t1, bp.push(a), ch[y]));
            lemma_read_layer_dirs(b, t0, t1, a, ch[y]);
            assert(ch.contains(ch[y]));
            let (i, j) = choose|i: int, j: int|
                0 <= i < b.aggregates.len() && 0 <= j < b.aggregates[i].layers.len() && b.aggregates[i].id == a
                    && (#[trigger] b.aggregates[i].layers[j]).name.token() == ch[y];
            lemma_layer_token_round_trip(b.aggregates[i].layers[j].name);
            assert(b.aggregates[i].layers[j].name == l);
        }
        if holds_layer(b, a, l) {
            let (i, j) = choose|i: int, j: int|
                0 <= i < b.aggregates.len() && 0 <= j < b.aggregates[i].layers.len() && b.aggregates[i].id == a
                    && (#[trigger] b.aggregates[i].layers[j]).name == l;
            assert(holds_aggregate(b, a));
            lemma_read_aggregate_names(b, t0, t1, a);
            let x = choose|x: int| 0 <= x < an.len() && an[x] == a;
            let ch = t1.children(bp.push(a));
            lemma_read_layer_dirs(b, t0, t1, a, l.token());
            let y = choose|y: int| 0 <= y < ch.len() && ch[y] == l.token();
            lemma_layer_token_round_trip(l);
            assert(r.aggregates[x] == read_aggregate(t1, bp, an[x]));
            assert(r.aggregates[x].layers[y] == read_layer(t1, bp.push(a), ch[y]));
            assert(r.aggregates[x].layers[y].name == l);
        }
    }
    assert forall|a: Seq<char>, l: LayerName, c: ComponentModel|
        holds_component(r, a, l, c) <==> holds_component(b, a, l, c) by {
        if holds_component(r, a, l, c) {
            lemma_round_trip_component_read(b, t0, t1, a, l, c);
        }
        if holds_component(b, a, l, c) {
            lemma_round_trip_component_written(b, t0, t1, a, l, c);
        }
    }
}

/// A component read back was written.
proof fn lemma_round_trip_component_read(
    b: BoundedContextModel,
    t0: TreeView,
    t1: TreeView,
    a: Seq<char>,
    l: LayerName,
    c: ComponentModel,
)
    requires
        untouched(t0, b.id),
        round_trip_names(b),
        written(t0, b, t1),
        holds_component(read_model(t1, b.id), a, l, c),
    ensures
        holds_component(b, a, l, c),
{
    let id = b.id;
    let bp = context_path(id);
    let r = read_model(t1, id);
    let an = aggregate_names(t1, id);
    let (x, y, z) = choose|x: int, y: int, z: int|
        0 <= x < r.aggregates.len() && 0 <= y < r.aggregates[x].layers.len() && 0 <= z
            < r.aggregates[x].layers[y].components.len() && r.aggregates[x].id == a
            && r.aggregates[x].layers[y].name == l && (#[trigger] r.aggregates[x].layers[y].components[z]) == c;
    assert(r.aggregates[x] == read_aggregate(t1, bp, an[x]));
    let ch = t1.children(bp.push(a));
    let lp = bp.push(a).push(ch[y]);
    assert(r.aggregates[x].layers[y] == read_layer(t1, bp.push(a), ch[y]));
    let kn = kind_names(t1, lp);
    let g = |k: Seq<char>| kind_components(t1, lp, k);
    let parts = kn.map_values(g);
    assert(r.aggregates[x].layers[y].components == parts.flatten());
    lemma_flatten_contains(parts, c);
    assert(parts.flatten()[z] == c);
    let (u, v) = choose|u: int, v: int| 0 <= u < parts.len() && 0 <= v < parts[u].len() && #[trigger] parts[u][v] == c;
    let k = kn[u];
    let mf = module_files(t1, lp.push(k));
    assert(parts[u] == kind_components(t1, lp, k));
    let f = mf[v];
    assert(c == (ComponentModel { kind: ComponentType::parse(k).unwrap(), name: stem(f) }));
    lemma_read_module_files(b, t0, t1, a, ch[y], k, f);
    assert(mf.contains(f));
    let (i, j, m) = choose|i: int, j: int, m: int|
        0 <= i < b.aggregates.len() && 0 <= j < b.aggregates[i].layers.len() && 0 <= m
            < b.aggregates[i].layers[j].components.len() && b.aggregates[i].id == a
            && b.aggregates[i].layers[j].name.token() == ch[y]
            && b.aggregates[i].layers[j].components[m].kind.token() == k
            && f == (#[trigger] b.aggregates[i].layers[j].components[m]).name + component_extension();
    let cw = b.aggregates[i].layers[j].components[m];
    lemma_layer_token_round_trip(b.aggregates[i].layers[j].name);
    lemma_kind_token_round_trip(cw.kind);
    lemma_segment_not_empty(cw.name);
    lemma_stem_of_component_file(cw.name);
    assert(cw == c);
}

/// A component written is read back.
proof fn lemma_round_trip_component_written(
    b: BoundedContextModel,
    t0: TreeView,
    t1: TreeView,
    a: Seq<char>,
    l: LayerName,
    c: ComponentModel,
)
    requires
        untouched(t0, b.id),
        round_trip_names(b),
        written(t0, b, t1),
        holds_component(b, a, l, c),
    ensures
        holds_component(read_model(t1, b.id), a, l, c),
{
    let id = b.id;
    let bp = context_path(id);
    let r = read_model(t1, id);
    let an = aggregate_names(t1, id);
    let (i, j, m) = choose|i: int, j: int, m: int|
        0 <= i < b.aggregates.len() && 0 <= j < b.aggregates[i].layers.len() && 0 <= m
            < b.aggregates[i].layers[j].components.len() && b.aggregates[i].id == a
            && b.aggregates[i].layers[j].name == l && (#[trigger] b.aggregates[i].layers[j].components[m]) == c;
    assert(holds_aggregate(b, a));
    lemma_read_aggregate_names(b, t0, t1, a);
    let x = choose|x: int| 0 <= x < an.len() && an[x] == a;
    let ch = t1.children(bp.push(a));
    lemma_read_layer_dirs(b, t0, t1, a, l.token());
    assert(b.aggregates[i].layers[j].name.token() == l.token());
    let y = choose|y: int| 0 <= y < ch.len() && ch[y] == l.token();
    lemma_layer_token_round_trip(l);
    lemma_kind_token_round_trip(c.kind);
    let lp = bp.push(a).push(l.token());
    lemma_read_kind_dirs(b, t0, t1, a, l.token(), c.kind.token());
    let kc = t1.children(lp);
    let pk = |n: Seq<char>| ComponentType::parse(n) is Some;
    let u0 = choose|u0: int| 0 <= u0 < kc.len() && kc[u0] == c.kind.token();
    kc.lemma_filter_contains(pk, u0);
    let kn = kind_names(t1, lp);
    let u = choose|u: int| 0 <= u < kn.len() && kn[u] == c.kind.token();
    let f = c.name + component_extension();
    lemma_read_module_files(b, t0, t1, a, l.token(), c.kind.token(), f);
    let mf = module_files(t1, lp.push(c.kind.token()));
    let v = choose|v: int| 0 <= v < mf.len() && mf[v] == f;
    lemma_segment_not_empty(c.name);
    lemma_stem_of_component_file(c.name);
    let g = |k: Seq<char>| kind_components(t1, lp, k);
    let parts = kn.map_values(g);
    assert(parts[u] == kind_components(t1, lp, kn[u]));
    assert(parts[u][v] == c);
    lemma_flatten_contains(parts, c);
    let flat = parts.flatten();
    let z = choose|z: int| 0 <= z < flat.len() && flat[z] == c;
    assert(r.aggregates[x] == read_aggregate(t1, bp, an[x]));
    assert(r.aggregates[x].layers[y] == read_layer(t1, bp.push(a), ch[y]));
    assert(r.aggregates[x].layers[y].components == flat);
    assert(r.aggregates[x].layers[y].components[z] == c);
}

proof fn lemma_is_child_unique(q: TreePath, d: TreePath, e: TreePath)
    requires
        is_child(q, d),
        is_child(q, e),
    ensures
        d == e,
{
    assert(d =~= e);
}

/// A filter that no element passes is empty.
proof fn lemma_filter_none<A>(s: Seq<A>, pred: spec_fn(A) -> bool)
    requires
        forall|k: int| 0 <= k < s.len() ==> !pred(#[trigger] s[k]),
    ensures
        s.filter(pred) == Seq::<A>::empty(),
{
    if s.filter(pred).len() > 0 {
        let x = s.filter(pred)[0];
        s.lemma_filter_contains_rev(pred, x);
        s.lemma_filter_pred(pred, 0);
        let k = choose|k: int| 0 <= k < s.len() && s[k] == x;
    }
    assert(s.filter(pred) =~= Seq::<A>::empty());
}

/// A directory that names no component kind, put with files of its own into a
/// layer directory of bounded context `id`, changes nothing that reading `id`
/// sees: the same layer directories are readable, and the same bounded context
/// reads back. Reading skips such a directory; it does not fail on it.
pub proof fn lemma_unknown_kind_dir_skipped(
    t: TreeView,
    t2: TreeView,
    id: Seq<char>,
    a: Seq<char>,
    l: Seq<char>,
    w: Seq<char>,
    extra: Seq<(TreePath, Seq<char>)>,
)
    requires
        ComponentType::parse(w) is None,
        t2.dirs == t.dirs.push(context_path(id).push(a).push(l).push(w)),
        t2.files == t.files + extra,
        forall|k: int|
            0 <= k < extra.len() ==> is_child(
                (#[trigger] extra[k]).0,
                context_path(id).push(a).push(l).push(w),
            ),
    ensures
        t2.has_dir(context_path(id)) == t.has_dir(context_path(id)),
        layers_readable(t2, id) == layers_readable(t, id),
        read_model(t2, id) == read_model(t, id),
{
    let lp = context_path(id).push(a).push(l);
    let p = lp.push(w);
    assert(p.len() == 4);
    assert(is_child(p, lp)) by {
        assert(p.subrange(0, lp.len() as int) =~= lp);
    }
    // Sub-directory listings change only in `lp`, by `w`.
    assert forall|d: TreePath| #![trigger t2.children(d)]
        (d != lp ==> t2.children(d) == t.children(d)) && (d == lp ==> t2.children(d) == t.children(
            d,
        ).push(w)) by {
        let pred = |q: TreePath| is_child(q, d);
        t.dirs.lemma_filter_push(p, pred);
        if is_child(p, d) {
            lemma_is_child_unique(p, d, lp);
            let fl = t.dirs.filter(pred);
            assert(fl.push(p).map_values(|q: TreePath| q.last()) =~= fl.map_values(|q: TreePath| q.last()).push(w));
        }
    }
    // File listings change only in `p`.
    assert forall|d: TreePath| d != p implies #[trigger] t2.file_names(d) == t.file_names(d) by {
        let pred = |f: (TreePath, Seq<char>)| is_child(f.0, d);
        Seq::filter_distributes_over_add(t.files, extra, pred);
        assert forall|k: int| 0 <= k < extra.len() implies !pred(#[trigger] extra[k]) by {
            if is_child(extra[k].0, d) {
                lemma_is_child_unique(extra[k].0, d, p);
            }
        }
        lemma_filter_none(extra, pred);
        assert(t.files.filter(pred) + Seq::<(TreePath, Seq<char>)>::empty() =~= t.files.filter(pred));
    }
    assert forall|lp2: TreePath, k: Seq<char>| #![trigger kind_components(t2, lp2, k)]
        lp2.push(k) != p ==> kind_components(t2, lp2, k) == kind_components(t, lp2, k) by {
        if lp2.push(k) != p {
            assert(t2.file_names(lp2.push(k)) == t.file_names(lp2.push(k)));
        }
    }
    assert forall|lp2: TreePath| #[trigger] layer_components(t2, lp2) == layer_components(t, lp2) by {
        let pk = |n: Seq<char>| ComponentType::parse(n) is Some;
        assert(t2.children(lp2) == t.children(lp2) || (lp2 == lp && t2.children(lp2) == t.children(lp2).push(w)));
        if lp2 == lp {
            t.children(lp2).lemma_filter_push(w, pk);
        }
        assert(kind_names(t2, lp2) == kind_names(t, lp2));
        let kn = kind_names(t, lp2);
        let g2 = |k: Seq<char>| kind_components(t2, lp2, k);
        let g = |k: Seq<char>| kind_components(t, lp2, k);
        assert forall|u: int| 0 <= u < kn.len() implies g2(kn[u]) == g(kn[u]) by {
            t.children(lp2).lemma_filter_pred(pk, u);
            if lp2.push(kn[u]) == p {
                assert(lp2.push(kn[u]).last() == w);
            }
        }
        assert(kn.map_values(g2) =~= kn.map_values(g));
    }
    let bp = context_path(id);
    assert forall|a2: Seq<char>| #[trigger] read_aggregate(t2, bp, a2) == read_aggregate(t, bp, a2) by {
        let ap = bp.push(a2);
        assert(ap.len() == 2);
        assert(t2.children(ap) == t.children(ap));
        let g2 = |x: Seq<char>| read_layer(t2, ap, x);
        let g = |x: Seq<char>| read_layer(t, ap, x);
        assert forall|x: Seq<char>| #[trigger] read_layer(t2, ap, x) == read_layer(t, ap, x) by {
            assert(layer_components(t2, ap.push(x)) == layer_components(t, ap.push(x)));
        }
        assert(t.children(ap).map_values(g2) =~= t.children(ap).map_values(g));
    }
    assert(bp.len() == 1);
    assert(t2.children(bp) == t.children(bp));
    assert(aggregate_names(t2, id) == aggregate_names(t, id));
    let an = aggregate_names(t, id);
    assert(an.map_values(|x: Seq<char>| read_aggregate(t2, bp, x)) =~= an.map_values(|x: Seq<char>| read_aggregate(t, bp, x)));
    assert forall|i: int| 0 <= i < an.len() implies #[trigger] layer_dirs_named(t2, bp.push(an[i])) == layer_dirs_named(t, bp.push(an[i])) by {
        assert(bp.push(an[i]).len() == 2);
        assert(t2.children(bp.push(an[i])) == t.children(bp.push(an[i])));
    }
    assert(layers_readable(t2, id) == layers_readable(t, id)) by {
        if layers_readable(t, id) {
            assert forall|i: int| 0 <= i < aggregate_names(t2, id).len() implies #[trigger] layer_dirs_named(
                t2,
                context_path(id).push(aggregate_names(t2, id)[i]),
            ) by {
                assert(layer_dirs_named(t, bp.push(an[i])));
            }
        }
        if layers_readable(t2, id) {
            assert forall|i: int| 0 <= i < an.len() implies #[trigger] layer_dirs_named(
                t,
                context_path(id).push(an[i]),
            ) by {
                assert(layer_dirs_named(t2, context_path(id).push(aggregate_names(t2, id)[i])));
            }
        }
    }
    assert(t2.has_dir(bp) == t.has_dir(bp)) by {
        if t2.has_dir(bp) && !t.has_dir(bp) {
            let k = choose|k: int| 0 <= k < t2.dirs.len() && t2.dirs[k] == bp;
            assert(k == t.dirs.len());
        }
        if t.has_dir(bp) {
            let k = choose|k: int| 0 <= k < t.dirs.len() && t.dirs[k] == bp;
            assert(t2.dirs[k] == bp);
        }
    }
}

} // verus!
