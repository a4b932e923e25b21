//! Where a bounded context lives on disk: the directories and files that
//! writing it must make, relative to the source root.
use vstd::prelude::*;
use crate::value_object::{Entity, ValueObject};
use crate::aggregate::{Aggregate, AggregateModel};
use crate::aggregate_layer::{AggregateLayer, LayerModel};
use crate::bounded_context::{BoundedContext, BoundedContextModel};
use crate::index_file::{component_extension, index_file_name};
use crate::layer_component::ComponentModel;
use crate::source_tree::{clone_path, path_of, TreePath};
use crate::text::{check_path_segment, is_path_segment, str_eq};

verus! {

broadcast use vstd::seq_lib::group_seq_properties;

/// The segments of a sequence of executable paths.
pub open spec fn paths_of(v: Seq<Vec<String>>) -> Seq<TreePath> {
    v.map_values(|p: Vec<String>| path_of(p))
}

/// The directory of a component kind inside the layer directory `lp`.
pub open spec fn kind_dir(lp: TreePath, c: ComponentModel) -> TreePath {
    lp.push(c.kind.token())
}

/// The file of a component inside the layer directory `lp`.
pub open spec fn component_file(lp: TreePath, c: ComponentModel) -> TreePath {
    kind_dir(lp, c).push(c.name + component_extension())
}

/// The directories of a layer inside the aggregate directory `ap`, parents first.
pub open spec fn layer_dirs(ap: TreePath, l: LayerModel) -> Seq<TreePath> {
    seq![ap.push(l.name.token())] + l.components.map_values(
        |c: ComponentModel| kind_dir(ap.push(l.name.token()), c),
    )
}

/// The component files of a layer inside the aggregate directory `ap`.
pub open spec fn layer_files(ap: TreePath, l: LayerModel) -> Seq<TreePath> {
    l.components.map_values(|c: ComponentModel| component_file(ap.push(l.name.token()), c))
}

/// The directories of an aggregate inside the bounded-context directory `bp`, parents first.
pub open spec fn aggregate_dirs(bp: TreePath, a: AggregateModel) -> Seq<TreePath> {
    seq![bp.push(a.id)] + a.layers.map_values(|l: LayerModel| layer_dirs(bp.push(a.id), l)).flatten()
}

/// The component files of an aggregate inside the bounded-context directory `bp`.
pub open spec fn aggregate_files(bp: TreePath, a: AggregateModel) -> Seq<TreePath> {
    a.layers.map_values(|l: LayerModel| layer_files(bp.push(a.id), l)).flatten()
}

/// The directory of a bounded context.
pub open spec fn context_dir(b: BoundedContextModel) -> TreePath {
    seq![b.id]
}

/// Every directory that writing `b` makes sure of, parents first.
pub open spec fn planned_dirs(b: BoundedContextModel) -> Seq<TreePath> {
    seq![context_dir(b)] + b.aggregates.map_values(
        |a: AggregateModel| aggregate_dirs(context_dir(b), a),
    ).flatten()
}

/// Every component file that writing `b` makes sure of.
pub open spec fn planned_files(b: BoundedContextModel) -> Seq<TreePath> {
    b.aggregates.map_values(|a: AggregateModel| aggregate_files(context_dir(b), a)).flatten()
}

/// The index file of directory `d`.
pub open spec fn index_path(d: TreePath) -> TreePath {
    d.push(index_file_name())
}

/// The index files that writing `b` regenerates.
pub open spec fn planned_indexes(b: BoundedContextModel) -> Seq<TreePath> {
    planned_dirs(b).map_values(|d: TreePath| index_path(d))
}

/// Every name that becomes a path segment can be one.
pub open spec fn names_valid(b: BoundedContextModel) -> bool {
    &&& is_path_segment(b.id)
    &&& forall|i: int| 0 <= i < b.aggregates.len() ==> is_path_segment(#[trigger] b.aggregates[i].id)
    &&& forall|i: int, j: int, k: int|
        0 <= i < b.aggregates.len() && 0 <= j < b.aggregates[i].layers.len() && 0 <= k
            < b.aggregates[i].layers[j].components.len() ==> component_name_ok(
            #[trigger] b.aggregates[i].layers[j].components[k].name,
        )
}

/// Appends `s` as a new last segment of a copy of `p`.
pub fn child_path(p: &Vec<String>, s: String) -> (r: Vec<String>)
    ensures
        path_of(r) == path_of(*p).push(s@),
{
    let mut r = clone_path(p);
    let ghost before = r@;
    r.push(s);
    proof {
        assert(path_of(r) =~= path_of(*p).push(s@));
    }
    r
}

proof fn lemma_extend_flatten<A, B>(s: Seq<A>, i: int, f: spec_fn(A) -> Seq<B>)
    requires
        0 <= i < s.len(),
    ensures
        s.subrange(0, i + 1).map_values(f).flatten() == s.subrange(0, i).map_values(f).flatten()
            + f(s[i]),
{
    assert(s.subrange(0, i + 1).map_values(f) =~= s.subrange(0, i).map_values(f).push(f(s[i])));
    s.subrange(0, i).map_values(f).lemma_flatten_push(f(s[i]));
}

/// Appends the directories and component files of one layer.
fn plan_layer(
    ap: &Vec<String>,
    layer: &AggregateLayer,
    dirs: &mut Vec<Vec<String>>,
    files: &mut Vec<Vec<String>>,
)
    ensures
        paths_of(final(dirs)@) == paths_of(old(dirs)@) + layer_dirs(path_of(*ap), layer@),
        paths_of(final(files)@) == paths_of(old(files)@) + layer_files(path_of(*ap), layer@),
{
    let value = layer.get_value();
    let lp = child_path(ap, value.name.to_string());
    let ghost lpv = path_of(*ap).push(layer@.name.token());
    let ghost d0 = paths_of(dirs@);
    let ghost f0 = paths_of(files@);
    dirs.push(clone_path(&lp));
    proof {
        assert(paths_of(dirs@) =~= d0.push(lpv));
    }
    let comps = &value.components;
    let ghost cm = layer@.components;
    let ghost fd = |c: ComponentModel| kind_dir(lpv, c);
    let ghost ff = |c: ComponentModel| component_file(lpv, c);
    let mut k: usize = 0;
    while k < comps.len()
        invariant
            k <= comps.len(),
            path_of(lp) == lpv,
            cm == layer@.components,
            cm.len() == comps.len(),
            forall|m: int| 0 <= m < comps.len() ==> (#[trigger] comps@[m])@ == cm[m],
            fd == (|c: ComponentModel| kind_dir(lpv, c)),
            ff == (|c: ComponentModel| component_file(lpv, c)),
            paths_of(dirs@) == d0.push(lpv) + cm.subrange(0, k as int).map_values(fd),
            paths_of(files@) == f0 + cm.subrange(0, k as int).map_values(ff),
        decreases comps.len() - k,
    {
        let cv = comps[k].get_value();
        let kd = child_path(&lp, cv.component_type.to_string());
        let mut fname = cv.component_name.get_value().clone();
        fname.append(".rs");
        let kf = child_path(&kd, fname);
        let ghost dd = paths_of(dirs@);
        let ghost ffs = paths_of(files@);
        dirs.push(kd);
        files.push(kf);
        proof {
            assert(comps@[k as int]@ == cm[k as int]);
            assert(cv.model() == cm[k as int]);
            assert(cm.subrange(0, k + 1) =~= cm.subrange(0, k as int).push(cm[k as int]));
            assert(paths_of(dirs@) =~= dd.push(fd(cm[k as int])));
            assert(paths_of(files@) =~= ffs.push(ff(cm[k as int])));
            assert(cm.subrange(0, k + 1).map_values(fd) =~= cm.subrange(0, k as int).map_values(fd).push(fd(cm[k as int])));
            assert(cm.subrange(0, k + 1).map_values(ff) =~= cm.subrange(0, k as int).map_values(ff).push(ff(cm[k as int])));
        }
        k = k + 1;
    }
    proof {
        assert(cm.subrange(0, cm.len() as int) =~= cm);
        assert(layer_dirs(path_of(*ap), layer@) =~= seq![lpv] + cm.map_values(fd));
        assert(layer_files(path_of(*ap), layer@) =~= cm.map_values(ff));
        assert(d0.push(lpv) + cm.map_values(fd) =~= d0 + (seq![lpv] + cm.map_values(fd)));
    }
}

/// Appends the directories and component files of one aggregate.
fn plan_aggregate(
    bp: &Vec<String>,
    aggregate: &Aggregate,
    dirs: &mut Vec<Vec<String>>,
    files: &mut Vec<Vec<String>>,
)
    ensures
        paths_of(final(dirs)@) == paths_of(old(dirs)@) + aggregate_dirs(path_of(*bp), aggregate@),
        paths_of(final(files)@) == paths_of(old(files)@) + aggregate_files(path_of(*bp), aggregate@),
{
    let ap = child_path(bp, aggregate.get_id().to_string());
    let ghost apv = path_of(*bp).push(aggregate@.id);
    let ghost d0 = paths_of(dirs@);
    let ghost f0 = paths_of(files@);
    dirs.push(clone_path(&ap));
    proof {
        assert(paths_of(dirs@) =~= d0.push(apv));
    }
    let layers = aggregate.get_layers();
    let ghost lm = aggregate@.layers;
    let ghost fd = |l: LayerModel| layer_dirs(apv, l);
    let ghost ff = |l: LayerModel| layer_files(apv, l);
    let mut j: usize = 0;
    while j < layers.len()
        invariant
            j <= layers.len(),
            path_of(ap) == apv,
            lm == aggregate@.layers,
            lm.len() == layers.len(),
            forall|m: int| 0 <= m < layers.len() ==> (#[trigger] layers@[m])@ == lm[m],
            fd == (|l: LayerModel| layer_dirs(apv, l)),
            ff == (|l: LayerModel| layer_files(apv, l)),
            paths_of(dirs@) == d0.push(apv) + lm.subrange(0, j as int).map_values(fd).flatten(),
            paths_of(files@) == f0 + lm.subrange(0, j as int).map_values(ff).flatten(),
        decreases layers.len() - j,
    {
        plan_layer(&ap, &layers[j], dirs, files);
        proof {
            lemma_extend_flatten(lm, j as int, fd);
            lemma_extend_flatten(lm, j as int, ff);
        }
        j = j + 1;
    }
    proof {
        assert(lm.subrange(0, lm.len() as int) =~= lm);
        assert(d0.push(apv) + lm.map_values(fd).flatten() =~= d0 + aggregate_dirs(path_of(*bp), aggregate@));
    }
}

/// The directories and component files that writing `bc` makes sure of, parents first.
pub fn plan_bounded_context(bc: &BoundedContext) -> (r: (Vec<Vec<String>>, Vec<Vec<String>>))
    ensures
        paths_of(r.0@) == planned_dirs(bc@),
        paths_of(r.1@) == planned_files(bc@),
{
    let mut bp: Vec<String> = Vec::new();
    bp.push(bc.get_id().to_string());
    let ghost bpv = context_dir(bc@);
    proof {
        assert(path_of(bp) =~= bpv);
    }
    let mut dirs: Vec<Vec<String>> = Vec::new();
    let mut files: Vec<Vec<String>> = Vec::new();
    dirs.push(clone_path(&bp));
    proof {
        assert(paths_of(dirs@) =~= seq![bpv]);
        assert(paths_of(files@) =~= Seq::<TreePath>::empty());
    }
    let ghost am = bc@.aggregates;
    let ghost fd = |a: AggregateModel| aggregate_dirs(bpv, a);
    let ghost ff = |a: AggregateModel| aggregate_files(bpv, a);
    let mut i: usize = 0;
    while i < bc.aggregates.len()
        invariant
            i <= bc.aggregates.len(),
            path_of(bp) == bpv,
            am == bc@.aggregates,
            am.len() == bc.aggregates.len(),
            fd == (|a: AggregateModel| aggregate_dirs(bpv, a)),
            ff == (|a: AggregateModel| aggregate_files(bpv, a)),
            paths_of(dirs@) == seq![bpv] + am.subrange(0, i as int).map_values(fd).flatten(),
            paths_of(files@) == Seq::<TreePath>::empty() + am.subrange(0, i as int).map_values(ff).flatten(),
        decreases bc.aggregates.len() - i,
    {
        plan_aggregate(&bp, &bc.aggregates[i], &mut dirs, &mut files);
        proof {
            assert(bc.aggregates@[i as int]@ == am[i as int]);
            lemma_extend_flatten(am, i as int, fd);
            lemma_extend_flatten(am, i as int, ff);
        }
        i = i + 1;
    }
    proof {
        assert(am.subrange(0, am.len() as int) =~= am);
        assert(Seq::<TreePath>::empty() + am.map_values(ff).flatten() =~= am.map_values(ff).flatten());
    }
    (dirs, files)
}

/// Whether `n` can name a component: a path segment whose file is not the index.
pub open spec fn component_name_ok(n: Seq<char>) -> bool {
    is_path_segment(n) && n + component_extension() != index_file_name()
}

/// `p` is where a name of `b` that cannot stand on disk would go: the context
/// directory, an aggregate directory, or a component file.
pub open spec fn name_offender(b: BoundedContextModel, p: TreePath) -> bool {
    ||| p == context_dir(b) && !is_path_segment(b.id)
    ||| exists|i: int|
        0 <= i < b.aggregates.len() && p == context_dir(b).push(b.aggregates[i].id) && !is_path_segment(
            #[trigger] b.aggregates[i].id,
        )
    ||| exists|i: int, j: int, k: int|
        0 <= i < b.aggregates.len() && 0 <= j < b.aggregates[i].layers.len() && 0 <= k
            < b.aggregates[i].layers[j].components.len() && p == component_file(
            context_dir(b).push(b.aggregates[i].id).push(b.aggregates[i].layers[j].name.token()),
            b.aggregates[i].layers[j].components[k],
        ) && !component_name_ok(#[trigger] b.aggregates[i].layers[j].components[k].name)
}

/// Checks every name of `bc` that becomes a path segment; gives the path of the
/// first one that cannot.
pub fn check_names(bc: &BoundedContext) -> (r: Option<Vec<String>>)
    ensures
        r is None <==> names_valid(bc@),
        r matches Some(p) ==> name_offender(bc@, path_of(p)),
{
    let ghost b = bc@;
    let mut bp: Vec<String> = Vec::new();
    bp.push(bc.get_id().to_string());
    proof {
        assert(path_of(bp) =~= context_dir(b));
    }
    if !check_path_segment(bc.get_id().get_value().as_str()) {
        return Some(bp);
    }
    let mut i: usize = 0;
    while i < bc.aggregates.len()
        invariant
            i <= bc.aggregates.len(),
            b == bc@,
            path_of(bp) == context_dir(b),
            is_path_segment(b.id),
            forall|i2: int| 0 <= i2 < i ==> is_path_segment(#[trigger] b.aggregates[i2].id),
            forall|i2: int, j: int, k: int|
                0 <= i2 < i && 0 <= j < b.aggregates[i2].layers.len() && 0 <= k
                    < b.aggregates[i2].layers[j].components.len() ==> component_name_ok(
                    #[trigger] b.aggregates[i2].layers[j].components[k].name,
                ),
        decreases bc.aggregates.len() - i,
    {
        let aggregate = &bc.aggregates[i];
        proof {
            assert(b.aggregates[i as int] == aggregate@);
        }
        let ap = child_path(&bp, aggregate.get_id().to_string());
        if !check_path_segment(aggregate.get_id().get_value().as_str()) {
            return Some(ap);
        }
        let layers = aggregate.get_layers();
        let mut j: usize = 0;
        while j < layers.len()
            invariant
                i < bc.aggregates.len(),
                j <= layers.len(),
                b == bc@,
                b.aggregates[i as int] == aggregate@,
                path_of(ap) == context_dir(b).push(aggregate@.id),
                aggregate@.layers.len() == layers.len(),
                forall|m: int| 0 <= m < layers.len() ==> (#[trigger] layers@[m])@ == aggregate@.layers[m],
                forall|j2: int, k: int|
                    0 <= j2 < j && 0 <= k < b.aggregates[i as int].layers[j2].components.len()
                        ==> component_name_ok(#[trigger] b.aggregates[i as int].layers[j2].components[k].name),
            decreases layers.len() - j,
        {
            let value = layers[j].get_value();
            let comps = &value.components;
            let ghost lm = layers@[j as int]@;
            proof {
                assert(lm == b.aggregates[i as int].layers[j as int]);
            }
            let lp = child_path(&ap, value.name.to_string());
            let mut k: usize = 0;
            while k < comps.len()
                invariant
                    j < layers.len(),
                    k <= comps.len(),
                    lm == layers@[j as int]@,
                    b == bc@,
                    i < b.aggregates.len(),
                    j < b.aggregates[i as int].layers.len(),
                    lm == b.aggregates[i as int].layers[j as int],
                    lm.name == value.name,
                    lm.components.len() == comps.len(),
                    path_of(lp) == context_dir(b).push(b.aggregates[i as int].id).push(lm.name.token()),
                    forall|m: int| 0 <= m < comps.len() ==> (#[trigger] comps@[m])@ == lm.components[m],
                    forall|k2: int| 0 <= k2 < k ==> component_name_ok(#[trigger] lm.components[k2].name),
                decreases comps.len() - k,
            {
                let cv = comps[k].get_value();
                let name = cv.component_name.get_value();
                let mut file = name.clone();
                file.append(".rs");
                proof {
                    assert(cv.model() == lm.components[k as int]);
                    reveal_strlit(".rs");
                    reveal_strlit("mod.rs");
                }
                if !check_path_segment(name.as_str()) || str_eq(file.as_str(), "mod.rs") {
                    let kp = child_path(&lp, cv.component_type.to_string());
                    let fp = child_path(&kp, file);
                    proof {
                        let c = b.aggregates[i as int].layers[j as int].components[k as int];
                        assert(path_of(fp) == component_file(
                            context_dir(b).push(b.aggregates[i as int].id).push(b.aggregates[i as int].layers[j as int].name.token()),
                            c,
                        ));
                        assert(!component_name_ok(c.name));
                    }
                    return Some(fp);
                }
                k = k + 1;
            }
            j = j + 1;
        }
        i = i + 1;
    }
    None
}

} // verus!
