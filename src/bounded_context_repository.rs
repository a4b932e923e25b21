//! The projection of a bounded context onto the source tree: writing it as
//! directories, component files and module indexes, and reading it back.
use vstd::prelude::*;
use crate::value_object::{Entity, ValueObject};
use crate::aggregate::{layer_models, Aggregate, AggregateModel};
use crate::aggregate_layer::{component_models, AggregateLayer, AggregateLayerValue, LayerModel};
use crate::bounded_context::{aggregate_models, BoundedContext, BoundedContextModel};
use crate::layer_component::{ComponentModel, LayerComponent, LayerComponentValue};
use crate::names::ComponentName;
use crate::taxonomy::{ComponentType, LayerName};
use crate::identity_object::IdentityObject;
use crate::index_file::{
    file_stem, index_file_name, index_text, insert_sorted, lemma_sorted_names,
    lemma_sorted_names_exist, names_of, render, render_index, sorted_names, stem, strictly_sorted,
};
use crate::layout::{
    check_names, child_path, index_path, name_offender, names_valid, paths_of, plan_bounded_context,
    planned_dirs, planned_files, planned_indexes,
};
use crate::source_tree::{
    child_names, clone_path, lemma_children_set, lemma_file_names_contains, lemma_push_file,
    lemma_update_file, path_eq, path_of, SourceTree, TreeChange, TreePath, TreeView,
};
use crate::text::str_eq;

verus! {

broadcast use vstd::seq_lib::group_seq_properties;

/// Why the tree could not be written or read.
#[derive(Debug)]
pub enum BoundedContextRepositoryError {
    /// No directory for the bounded context.
    NotFound(String),
    /// Writing would break the tree; the message names the offending path.
    WriteError(String),
    /// The tree does not read back as a bounded context; the message names the offending path.
    ReadError(String),
}

impl BoundedContextRepositoryError {
    /// The message shown for the error.
    pub open spec fn text(&self) -> Seq<char> {
        match self {
            BoundedContextRepositoryError::NotFound(s) => "Bounded Context not found: "@ + s@,
            BoundedContextRepositoryError::WriteError(s) => "Error writing Bounded Context: "@ + s@,
            BoundedContextRepositoryError::ReadError(s) => "Error reading Bounded Context: "@ + s@,
        }
    }

    pub fn message(&self) -> (r: String)
        ensures
            r@ == self.text(),
    {
        let (mut r, s) = match self {
            BoundedContextRepositoryError::NotFound(s) => (String::from_str("Bounded Context not found: "), s),
            BoundedContextRepositoryError::WriteError(s) => (String::from_str("Error writing Bounded Context: "), s),
            BoundedContextRepositoryError::ReadError(s) => (String::from_str("Error reading Bounded Context: "), s),
        };
        r.append(s.as_str());
        r
    }
}

/// The names a module index lists for a kind directory: the stems of its
/// files, the index itself left out.
pub open spec fn module_names(t: TreeView, d: TreePath) -> Set<Seq<char>> {
    Set::new(
        |n: Seq<char>|
            exists|f: Seq<char>| #[trigger] t.has_file(d.push(f)) && f != index_file_name() && n == stem(f),
    )
}

/// Depth of a component-kind directory below the source root.
pub open spec fn kind_depth() -> nat {
    4
}

/// The names the index of directory `d` lists: the files of a component-kind
/// directory, the sub-directories of any other, but `core` in a
/// bounded-context directory, which names no aggregate.
pub open spec fn index_names(t: TreeView, d: TreePath) -> Set<Seq<char>> {
    if d.len() == kind_depth() {
        module_names(t, d)
    } else if d.len() == 1 {
        child_names(t, d).remove(reserved_name())
    } else {
        child_names(t, d)
    }
}

/// The names that the index of `d` lists, given all the names found in it.
pub open spec fn listed_names(d: TreePath, found: Set<Seq<char>>) -> Set<Seq<char>> {
    if d.len() == 1 {
        found.remove(reserved_name())
    } else {
        found
    }
}

/// Writing `b` over `t` would not put a directory where a file is, or a file where a directory is.
pub open spec fn write_admissible(t: TreeView, b: BoundedContextModel) -> bool {
    &&& names_valid(b)
    &&& forall|d: TreePath|
        #[trigger] planned_dirs(b).contains(d) ==> !t.has_file(d) && !planned_indexes(b).contains(d)
            && !planned_files(b).contains(d)
    &&& forall|f: TreePath| #[trigger] planned_files(b).contains(f) ==> !t.has_dir(f)
    &&& forall|f: TreePath| #[trigger] planned_indexes(b).contains(f) ==> !t.has_dir(f)
}

/// `after` is `before` with `b` written over it: its directories and component
/// files made sure of, existing files left as they were, new component files
/// empty, and every touched directory's index listing what the directory holds.
pub open spec fn written(before: TreeView, b: BoundedContextModel, after: TreeView) -> bool {
    &&& write_admissible(before, b)
    &&& after.wf()
    &&& after.dir_set() == before.dir_set() + planned_dirs(b).to_set()
    &&& after.file_set() == before.file_set() + planned_files(b).to_set() + planned_indexes(
        b,
    ).to_set()
    &&& forall|p: TreePath|
        after.has_file(p) && !planned_indexes(b).contains(p) ==> #[trigger] after.contents(p) == (
        if before.has_file(p) {
            before.contents(p)
        } else {
            Seq::empty()
        })
    &&& forall|d: TreePath|
        #[trigger] planned_dirs(b).contains(d) ==> after.contents(index_path(d)) == index_text(
            index_names(after, d),
        )
}

/// The reserved directory name that never stands for an aggregate or a bounded context.
pub open spec fn reserved_name() -> Seq<char> {
    "core"@
}

/// The aggregate directories of the bounded context `id`, in listing order.
pub open spec fn aggregate_names(t: TreeView, id: Seq<char>) -> Seq<Seq<char>> {
    t.children(seq![id]).filter(|n: Seq<char>| n != reserved_name())
}

/// The recognised component-kind directories of layer directory `lp`; others are skipped.
pub open spec fn kind_names(t: TreeView, lp: TreePath) -> Seq<Seq<char>> {
    t.children(lp).filter(|n: Seq<char>| ComponentType::parse(n) is Some)
}

/// The files of kind directory `kp` that stand for components: all but the index.
pub open spec fn module_files(t: TreeView, kp: TreePath) -> Seq<Seq<char>> {
    t.file_names(kp).filter(|f: Seq<char>| f != index_file_name())
}

/// The components read from kind directory `k` of layer directory `lp`.
pub open spec fn kind_components(t: TreeView, lp: TreePath, k: Seq<char>) -> Seq<ComponentModel> {
    module_files(t, lp.push(k)).map_values(
        |f: Seq<char>| ComponentModel { kind: ComponentType::parse(k).unwrap(), name: stem(f) },
    )
}

/// The components read from layer directory `lp`, kind directory by kind directory.
pub open spec fn layer_components(t: TreeView, lp: TreePath) -> Seq<ComponentModel> {
    kind_names(t, lp).map_values(|k: Seq<char>| kind_components(t, lp, k)).flatten()
}

/// The layer read from directory `l` of aggregate directory `ap`.
pub open spec fn read_layer(t: TreeView, ap: TreePath, l: Seq<char>) -> LayerModel {
    LayerModel { name: LayerName::parse(l).unwrap(), components: layer_components(t, ap.push(l)) }
}

/// The aggregate read from directory `a` of bounded-context directory `bp`.
pub open spec fn read_aggregate(t: TreeView, bp: TreePath, a: Seq<char>) -> AggregateModel {
    AggregateModel {
        id: a,
        layers: t.children(bp.push(a)).map_values(|l: Seq<char>| read_layer(t, bp.push(a), l)),
    }
}

/// The bounded context `id` as the tree holds it.
pub open spec fn read_model(t: TreeView, id: Seq<char>) -> BoundedContextModel {
    BoundedContextModel {
        id,
        aggregates: aggregate_names(t, id).map_values(|a: Seq<char>| read_aggregate(t, context_path(id), a)),
    }
}

/// Every sub-directory of aggregate directory `ap` names a layer.
pub open spec fn layer_dirs_named(t: TreeView, ap: TreePath) -> bool {
    forall|j: int| 0 <= j < t.children(ap).len() ==> (#[trigger] LayerName::parse(t.children(ap)[j])) is Some
}

/// The directory of bounded context `id`.
pub open spec fn context_path(id: Seq<char>) -> TreePath {
    seq![id]
}

/// Every layer directory of every aggregate of `id` names a layer.
pub open spec fn layers_readable(t: TreeView, id: Seq<char>) -> bool {
    forall|i: int|
        0 <= i < aggregate_names(t, id).len() ==> #[trigger] layer_dirs_named(
            t,
            context_path(id).push(aggregate_names(t, id)[i]),
        )
}

/// The segments of a path joined by `/`, as messages name a path.
pub open spec fn joined(p: TreePath) -> Seq<char>
    decreases p.len(),
{
    if p.len() == 0 {
        Seq::empty()
    } else if p.len() == 1 {
        p[0]
    } else {
        joined(p.drop_last()) + "/"@ + p.last()
    }
}

/// The segments of `p` joined by `/`.
fn join_path(p: &Vec<String>) -> (r: String)
    ensures
        r@ == joined(path_of(*p)),
{
    let ghost pv = path_of(*p);
    let mut r = String::new();
    let mut i: usize = 0;
    proof {
        assert(pv.subrange(0, 0) =~= Seq::<Seq<char>>::empty());
    }
    while i < p.len()
        invariant
            i <= p.len(),
            pv == path_of(*p),
            r@ == joined(pv.subrange(0, i as int)),
        decreases p.len() - i,
    {
        proof {
            assert(pv.subrange(0, i + 1).drop_last() =~= pv.subrange(0, i as int));
            assert(pv[i as int] == p@[i as int]@);
        }
        if i > 0 {
            r.append("/");
        }
        r.append(p[i].as_str());
        proof {
            if i == 0 {
                assert(r@ =~= pv[0]);
            }
        }
        i = i + 1;
    }
    proof {
        assert(pv.subrange(0, pv.len() as int) =~= pv);
    }
    r
}

/// `p` is where writing `b` over `t` would put a directory on a file, or a
/// file on a directory.
pub open spec fn conflict_offender(t: TreeView, b: BoundedContextModel, p: TreePath) -> bool {
    ||| planned_dirs(b).contains(p) && (t.has_file(p) || planned_indexes(b).contains(p)
        || planned_files(b).contains(p))
    ||| planned_files(b).contains(p) && t.has_dir(p)
    ||| planned_indexes(b).contains(p) && t.has_dir(p)
}

/// Whether some path of `v` equals `p`.
fn contains_path(v: &Vec<Vec<String>>, p: &Vec<String>) -> (r: bool)
    ensures
        r == paths_of(v@).contains(path_of(*p)),
{
    let mut i: usize = 0;
    while i < v.len()
        invariant
            i <= v.len(),
            forall|k: int| 0 <= k < i ==> paths_of(v@)[k] != path_of(*p),
        decreases v.len() - i,
    {
        if path_eq(&v[i], p) {
            proof {
                assert(paths_of(v@)[i as int] == path_of(*p));
            }
            return true;
        }
        i = i + 1;
    }
    false
}

/// The repository of bounded contexts over an in-memory source tree.
pub struct FilesystemBoundedContextRepository {
    tree: SourceTree,
}

impl FilesystemBoundedContextRepository {
    pub closed spec fn wf(&self) -> bool {
        self.tree.wf()
    }

    /// The current tree.
    pub closed spec fn tree_view(&self) -> TreeView {
        self.tree@
    }

    /// The changes made to the tree, oldest first.
    pub closed spec fn journal(&self) -> Seq<TreeChange> {
        self.tree.journal()
    }

    /// The tree the journal starts from.
    pub closed spec fn base(&self) -> TreeView {
        self.tree.base()
    }

    pub fn new(tree: SourceTree) -> (r: FilesystemBoundedContextRepository)
        requires
            tree.wf(),
        ensures
            r.wf(),
            r.tree_view() == tree@,
            r.journal() == tree.journal(),
            r.base() == tree.base(),
    {
        FilesystemBoundedContextRepository { tree }
    }

    /// The tree as it stands now.
    pub fn tree(&self) -> (r: &SourceTree)
        ensures
            r@ == self.tree_view(),
            r.journal() == self.journal(),
            r.base() == self.base(),
            self.wf() ==> r.wf(),
    {
        &self.tree
    }

    /// Gives the tree back, with its journal of changes.
    pub fn into_tree(self) -> (r: SourceTree)
        ensures
            r@ == self.tree_view(),
            r.journal() == self.journal(),
            r.base() == self.base(),
            self.wf() ==> r.wf(),
    {
        self.tree
    }

    /// Whether the directory `directory_path` exists.
    fn check_directory(&self, directory_path: &Vec<String>) -> (r: bool)
        ensures
            r == self.tree_view().has_dir(path_of(*directory_path)),
    {
        self.tree.has_directory(directory_path)
    }

    /// Creates the directory `path` unless it exists.
    fn create_directory(&mut self, path: &Vec<String>)
        requires
            old(self).wf(),
        ensures
            final(self).base() == old(self).base(),
            final(self).wf(),
            final(self).tree_view().files == old(self).tree_view().files,
            final(self).tree_view().dir_set() == old(self).tree_view().dir_set().insert(path_of(*path)),
    {
        let ghost before = self.tree_view();
        if self.check_directory(path) {
            proof {
                assert(before.dir_set().insert(path_of(*path)) =~= before.dir_set());
            }
            return;
        }
        self.tree.create_directory(clone_path(path));
        proof {
            before.dirs.lemma_push_to_set_commute(path_of(*path));
        }
    }

    /// The names of the sub-directories of `path`, in listing order.
    fn get_dir_names(&self, path: &Vec<String>) -> (r: Vec<String>)
        ensures
            names_of(r@) == self.tree_view().children(path_of(*path)),
    {
        let r = self.tree.list_directories(path);
        proof {
            assert(names_of(r@) =~= r@.map_values(|s: String| s@));
        }
        r
    }

    /// The stems of the files of `path`, the index file left out.
    fn get_dir_file_names(&self, path: &Vec<String>) -> (r: Vec<String>)
        ensures
            names_of(r@).to_set() == module_names(self.tree_view(), path_of(*path)),
    {
        let files = self.tree.list_files(path);
        let ghost t = self.tree_view();
        let ghost d = path_of(*path);
        let mut r: Vec<String> = Vec::new();
        let mut i: usize = 0;
        while i < files.len()
            invariant
                i <= files.len(),
                t == self.tree_view(),
                d == path_of(*path),
                files@.map_values(|s: String| s@) == t.file_names(d),
                forall|n: Seq<char>|
                    names_of(r@).contains(n) <==> exists|k: int|
                        0 <= k < i && (#[trigger] files@[k])@ != index_file_name() && n == stem(
                            files@[k]@,
                        ),
            decreases files.len() - i,
        {
            let f = &files[i];
            if !str_eq(f.as_str(), "mod.rs") {
                let s = file_stem(f.as_str());
                let ghost before = r@;
                r.push(s);
                proof {
                    assert(names_of(r@) =~= names_of(before).push(s@));
                    assert forall|n: Seq<char>|
                        names_of(r@).contains(n) <==> exists|k: int|
                            0 <= k < i + 1 && (#[trigger] files@[k])@ != index_file_name() && n
                                == stem(files@[k]@) by {
                        if names_of(r@).contains(n) && n != s@ {
                            assert(names_of(before).contains(n));
                        }
                        if exists|k: int|
                            0 <= k < i + 1 && (#[trigger] files@[k])@ != index_file_name() && n
                                == stem(files@[k]@) {
                            let k = choose|k: int|
                                0 <= k < i + 1 && (#[trigger] files@[k])@ != index_file_name() && n
                                    == stem(files@[k]@);
                            if k < i {
                                assert(names_of(before).contains(n));
                                let m = choose|m: int| 0 <= m < names_of(before).len() && names_of(before)[m] == n;
                                assert(names_of(r@)[m] == n);
                            } else {
                                assert(names_of(r@)[before.len() as int] == n);
                            }
                        }
                    }
                }
            } else {
                proof {
                    assert(index_file_name() == "mod.rs"@);
                    assert forall|n: Seq<char>|
                        names_of(r@).contains(n) <==> exists|k: int|
                            0 <= k < i + 1 && (#[trigger] files@[k])@ != index_file_name() && n
                                == stem(files@[k]@) by {
                        if exists|k: int|
                            0 <= k < i + 1 && (#[trigger] files@[k])@ != index_file_name() && n
                                == stem(files@[k]@) {
                            let k = choose|k: int|
                                0 <= k < i + 1 && (#[trigger] files@[k])@ != index_file_name() && n
                                    == stem(files@[k]@);
                            assert(k < i);
                        }
                    }
                }
            }
            i = i + 1;
        }
        proof {
            assert forall|n: Seq<char>| names_of(r@).to_set().contains(n) <==> module_names(t, d).contains(n) by {
                if names_of(r@).contains(n) {
                    let k = choose|k: int|
                        0 <= k < files.len() && (#[trigger] files@[k])@ != index_file_name() && n == stem(
                            files@[k]@,
                        );
                    assert(t.file_names(d)[k] == files@[k]@);
                    lemma_file_names_contains(t, d, files@[k]@);
                    assert(t.has_file(d.push(files@[k]@)));
                }
                if module_names(t, d).contains(n) {
                    let f = choose|f: Seq<char>| #[trigger] t.has_file(d.push(f)) && f != index_file_name() && n == stem(f);
                    lemma_file_names_contains(t, d, f);
                    let k = choose|k: int| 0 <= k < t.file_names(d).len() && t.file_names(d)[k] == f;
                    assert(files@[k]@ == f);
                }
            }
            assert(names_of(r@).to_set() =~= module_names(t, d));
        }
        r
    }

    /// The index text of directory `path` as the tree stands.
    fn directory_index(&self, path: &Vec<String>) -> (r: String)
        ensures
            r@ == index_text(index_names(self.tree_view(), path_of(*path))),
    {
        let ghost t = self.tree_view();
        let ghost d = path_of(*path);
        let names = if path.len() == 4 {
            self.get_dir_file_names(path)
        } else {
            let n = self.get_dir_names(path);
            proof {
                lemma_children_set(t, d);
            }
            n
        };
        proof {
            assert(listed_names(d, names_of(names@).to_set()) == index_names(t, d));
        }
        let mut sorted: Vec<String> = Vec::new();
        let mut i: usize = 0;
        proof {
            assert(names_of(sorted@).to_set() =~= listed_names(d, names_of(names@).subrange(0, 0).to_set()));
        }
        while i < names.len()
            invariant
                i <= names.len(),
                d == path_of(*path),
                strictly_sorted(names_of(sorted@)),
                names_of(sorted@).to_set() == listed_names(d, names_of(names@).subrange(0, i as int).to_set()),
            decreases names.len() - i,
        {
            proof {
                reveal_strlit("core");
                assert(names_of(names@).subrange(0, i + 1) =~= names_of(names@).subrange(0, i as int).push(names@[i as int]@));
                names_of(names@).subrange(0, i as int).lemma_push_to_set_commute(names@[i as int]@);
            }
            if path.len() == 1 && str_eq(names[i].as_str(), "core") {
                proof {
                    assert(listed_names(d, names_of(names@).subrange(0, i + 1).to_set()) =~= listed_names(d, names_of(names@).subrange(0, i as int).to_set()));
                }
            } else {
                insert_sorted(&mut sorted, names[i].clone());
                proof {
                    assert(names_of(sorted@).to_set() =~= listed_names(d, names_of(names@).subrange(0, i + 1).to_set()));
                }
            }
            i = i + 1;
        }
        proof {
            assert(names_of(names@).subrange(0, names@.len() as int) =~= names_of(names@));
            lemma_sorted_names(names_of(sorted@));
        }
        render_index(&sorted)
    }

    /// Regenerates the index file of `path` from what the directory holds.
    fn initialize_directory(&mut self, path: &Vec<String>)
        requires
            old(self).wf(),
        ensures
            final(self).base() == old(self).base(),
            final(self).wf(),
            final(self).tree_view().dirs == old(self).tree_view().dirs,
            forall|q: TreePath|
                #[trigger] final(self).tree_view().has_file(q) <==> old(self).tree_view().has_file(q)
                    || q == index_path(path_of(*path)),
            final(self).tree_view().contents(index_path(path_of(*path))) == index_text(
                index_names(old(self).tree_view(), path_of(*path)),
            ),
            forall|q: TreePath|
                q != index_path(path_of(*path)) && old(self).tree_view().has_file(q)
                    ==> #[trigger] final(self).tree_view().contents(q) == old(self).tree_view().contents(q),
    {
        let text = self.directory_index(path);
        let p = child_path(path, String::from_str("mod.rs"));
        let ghost t = self.tree_view();
        let ghost pv = path_of(p);
        proof {
            reveal_strlit("mod.rs");
            assert(pv == index_path(path_of(*path)));
            if t.has_file(pv) {
                let i = choose|i: int| 0 <= i < t.files.len() && (#[trigger] t.files[i]).0 == pv;
                lemma_update_file(t, i, text@);
            } else {
                lemma_push_file(t, pv, text@);
            }
        }
        self.tree.write_file(p, text);
    }

    /// The components of layer directory `lp`: one per file of each recognised
    /// kind directory, the index left out; unrecognised kind directories are skipped.
    fn read_layer_components(&self, lp: &Vec<String>) -> (r: Vec<LayerComponent>)
        ensures
            component_models(r@) == layer_components(self.tree_view(), path_of(*lp)),
    {
        let ghost t = self.tree_view();
        let ghost lpv = path_of(*lp);
        let kinds = self.get_dir_names(lp);
        let ghost kv = names_of(kinds@);
        let ghost pk = |n: Seq<char>| ComponentType::parse(n) is Some;
        let ghost g = |k: Seq<char>| kind_components(t, lpv, k);
        let mut out: Vec<LayerComponent> = Vec::new();
        let mut x: usize = 0;
        proof {
            assert(component_models(out@) =~= kv.subrange(0, 0).filter(pk).map_values(g).flatten());
        }
        while x < kinds.len()
            invariant
                x <= kinds.len(),
                t == self.tree_view(),
                lpv == path_of(*lp),
                kv == names_of(kinds@),
                kv == t.children(lpv),
                pk == (|n: Seq<char>| ComponentType::parse(n) is Some),
                g == (|k: Seq<char>| kind_components(t, lpv, k)),
                component_models(out@) == kv.subrange(0, x as int).filter(pk).map_values(g).flatten(),
            decreases kinds.len() - x,
        {
            let ghost k = kv[x as int];
            let ghost base = component_models(out@);
            proof {
                assert(kv.subrange(0, x + 1) =~= kv.subrange(0, x as int).push(k));
                kv.subrange(0, x as int).lemma_filter_push(k, pk);
            }
            match ComponentType::from_str(kinds[x].as_str()) {
                Ok(kind) => {
                    let kp = child_path(lp, kinds[x].clone());
                    let files = self.tree.list_files(&kp);
                    let ghost kpv = lpv.push(k);
                    let ghost fv = files@.map_values(|s: String| s@);
                    let ghost pf = |f: Seq<char>| f != index_file_name();
                    let ghost h = |f: Seq<char>| ComponentModel { kind: ComponentType::parse(k).unwrap(), name: stem(f) };
                    let mut y: usize = 0;
                    proof {
                        assert(component_models(out@) =~= base + fv.subrange(0, 0).filter(pf).map_values(h));
                    }
                    while y < files.len()
                        invariant
                            y <= files.len(),
                            fv == files@.map_values(|s: String| s@),
                            fv == t.file_names(kpv),
                            ComponentType::parse(k) == Some(kind),
                            pf == (|f: Seq<char>| f != index_file_name()),
                            h == (|f: Seq<char>| ComponentModel { kind: ComponentType::parse(k).unwrap(), name: stem(f) }),
                            component_models(out@) == base + fv.subrange(0, y as int).filter(pf).map_values(h),
                        decreases files.len() - y,
                    {
                        let ghost f = fv[y as int];
                        let ghost before = component_models(out@);
                        proof {
                            assert(fv.subrange(0, y + 1) =~= fv.subrange(0, y as int).push(f));
                            fv.subrange(0, y as int).lemma_filter_push(f, pf);
                            reveal_strlit("mod.rs");
                        }
                        if !str_eq(files[y].as_str(), "mod.rs") {
                            let name = file_stem(files[y].as_str());
                            let c = LayerComponent::new(
                                LayerComponentValue { component_type: kind, component_name: ComponentName::new(name) },
                            );
                            out.push(c);
                            proof {
                                assert(component_models(out@) =~= before.push(h(f)));
                                let fl = fv.subrange(0, y as int).filter(pf);
                                assert(fl.push(f).map_values(h) =~= fl.map_values(h).push(h(f)));
                                assert(base + fl.map_values(h).push(h(f)) =~= (base + fl.map_values(h)).push(h(f)));
                            }
                        }
                        y = y + 1;
                    }
                    proof {
                        assert(fv.subrange(0, fv.len() as int) =~= fv);
                        assert(kind_components(t, lpv, k) =~= fv.filter(pf).map_values(h));
                        let fl = kv.subrange(0, x as int).filter(pk);
                        assert(fl.push(k).map_values(g) =~= fl.map_values(g).push(g(k)));
                        fl.map_values(g).lemma_flatten_push(g(k));
                    }
                },
                Err(_) => {},
            }
            x = x + 1;
        }
        proof {
            assert(kv.subrange(0, kv.len() as int) =~= kv);
        }
        out
    }

    /// The layer in directory `l` of aggregate directory `ap`; a directory that
    /// names no layer is a `ReadError`.
    fn read_layer_dir(&self, ap: &Vec<String>, l: &String) -> (r: Result<AggregateLayer, BoundedContextRepositoryError>)
        ensures
            r is Err <==> LayerName::parse(l@) is None,
            r matches Err(e) ==> e is ReadError,
            r matches Ok(layer) ==> layer@ == read_layer(self.tree_view(), path_of(*ap), l@),
    {
        match LayerName::from_str(l.as_str()) {
            Ok(name) => {
                let lp = child_path(ap, l.clone());
                let components = self.read_layer_components(&lp);
                Ok(AggregateLayer::new(AggregateLayerValue { name, components }))
            },
            Err(_) => Err(BoundedContextRepositoryError::ReadError(join_path(&child_path(ap, l.clone())))),
        }
    }

    /// The aggregate in directory `a` of bounded-context directory `bp`.
    fn read_aggregate_dir(&self, bp: &Vec<String>, a: &String) -> (r: Result<Aggregate, BoundedContextRepositoryError>)
        ensures
            r is Err <==> !layer_dirs_named(self.tree_view(), path_of(*bp).push(a@)),
            r matches Err(e) ==> e is ReadError,
            r matches Ok(aggregate) ==> aggregate@ == read_aggregate(self.tree_view(), path_of(*bp), a@),
    {
        let ghost t = self.tree_view();
        let ap = child_path(bp, a.clone());
        let ghost apv = path_of(ap);
        proof {
            assert(apv == path_of(*bp).push(a@));
        }
        let names = self.get_dir_names(&ap);
        let ghost nv = names_of(names@);
        let ghost g = |l: Seq<char>| read_layer(t, apv, l);
        let mut layers: Vec<AggregateLayer> = Vec::new();
        let mut j: usize = 0;
        while j < names.len()
            invariant
                j <= names.len(),
                t == self.tree_view(),
                apv == path_of(ap),
                apv == path_of(*bp).push(a@),
                nv == names_of(names@),
                nv == t.children(apv),
                g == (|l: Seq<char>| read_layer(t, apv, l)),
                layer_models(layers@) == nv.subrange(0, j as int).map_values(g),
                forall|m: int| 0 <= m < j ==> (#[trigger] LayerName::parse(nv[m])) is Some,
            decreases names.len() - j,
        {
            match self.read_layer_dir(&ap, &names[j]) {
                Ok(layer) => {
                    let ghost before = layer_models(layers@);
                    layers.push(layer);
                    proof {
                        assert(layer_models(layers@) =~= before.push(g(nv[j as int])));
                        assert(nv.subrange(0, j + 1) =~= nv.subrange(0, j as int).push(nv[j as int]));
                        assert(nv.subrange(0, j + 1).map_values(g) =~= nv.subrange(0, j as int).map_values(g).push(g(nv[j as int])));
                    }
                },
                Err(e) => {
                    proof {
                        assert(LayerName::parse(t.children(apv)[j as int]) is None);
                    }
                    return Err(e);
                },
            }
            j = j + 1;
        }
        proof {
            assert(nv.subrange(0, nv.len() as int) =~= nv);
        }
        Ok(Aggregate::new(IdentityObject::new(a.clone()), layers))
    }

    /// Reads bounded context `bounded_context_id` back from the tree: its
    /// aggregates are the sub-directories of its directory but `core`, their
    /// layers are their sub-directories, each layer's components are the files of
    /// its recognised component-kind directories. An absent directory is
    /// `NotFound`; a layer directory that names no layer is a `ReadError`. The
    /// layer table is not checked: the tree is taken as it stands.
    pub fn read_bounded_context(&self, bounded_context_id: &IdentityObject) -> (r: Result<
        Option<BoundedContext>,
        BoundedContextRepositoryError,
    >)
        ensures
            !self.tree_view().has_dir(context_path(bounded_context_id@)) ==> (r matches Err(
                BoundedContextRepositoryError::NotFound(s),
            ) && s@ == bounded_context_id@),
            self.tree_view().has_dir(context_path(bounded_context_id@)) && !layers_readable(
                self.tree_view(),
                bounded_context_id@,
            ) ==> (r matches Err(e) && e is ReadError),
            self.tree_view().has_dir(context_path(bounded_context_id@)) && layers_readable(
                self.tree_view(),
                bounded_context_id@,
            ) ==> (r matches Ok(Some(bc)) && bc@ == read_model(self.tree_view(), bounded_context_id@)),
            r is Ok ==> r->Ok_0 is Some,
    {
        let ghost t = self.tree_view();
        let ghost id = bounded_context_id@;
        let mut bp: Vec<String> = Vec::new();
        bp.push(bounded_context_id.to_string());
        proof {
            assert(path_of(bp) =~= context_path(id));
        }
        if !self.check_directory(&bp) {
            return Err(BoundedContextRepositoryError::NotFound(bounded_context_id.to_string()));
        }
        let names = self.get_dir_names(&bp);
        let ghost nv = names_of(names@);
        let ghost pa = |n: Seq<char>| n != reserved_name();
        let ghost g = |a: Seq<char>| read_aggregate(t, context_path(id), a);
        let mut aggregates: Vec<Aggregate> = Vec::new();
        let mut x: usize = 0;
        proof {
            assert(aggregate_models(aggregates@) =~= nv.subrange(0, 0).filter(pa).map_values(g));
        }
        while x < names.len()
            invariant
                x <= names.len(),
                t == self.tree_view(),
                path_of(bp) == context_path(id),
                t.has_dir(context_path(id)),
                id == bounded_context_id@,
                nv == names_of(names@),
                nv == t.children(context_path(id)),
                pa == (|n: Seq<char>| n != reserved_name()),
                g == (|a: Seq<char>| read_aggregate(t, context_path(id), a)),
                aggregate_models(aggregates@) == nv.subrange(0, x as int).filter(pa).map_values(g),
                forall|a: Seq<char>|
                    #[trigger] nv.subrange(0, x as int).filter(pa).contains(a) ==> layer_dirs_named(
                        t,
                        context_path(id).push(a),
                    ),
            decreases names.len() - x,
        {
            let ghost a = nv[x as int];
            let ghost before = aggregate_models(aggregates@);
            proof {
                reveal_strlit("core");
                assert(nv.subrange(0, x + 1) =~= nv.subrange(0, x as int).push(a));
                nv.subrange(0, x as int).lemma_filter_push(a, pa);
            }
            if !str_eq(names[x].as_str(), "core") {
                match self.read_aggregate_dir(&bp, &names[x]) {
                    Ok(aggregate) => {
                        aggregates.push(aggregate);
                        proof {
                            let fl = nv.subrange(0, x as int).filter(pa);
                            assert(aggregate_models(aggregates@) =~= before.push(g(a)));
                            assert(fl.push(a).map_values(g) =~= fl.map_values(g).push(g(a)));
                            assert forall|a2: Seq<char>| #[trigger] fl.push(a).contains(a2) implies layer_dirs_named(t, context_path(id).push(a2)) by {
                                if a2 != a {
                                    let k = choose|k: int| 0 <= k < fl.push(a).len() && fl.push(a)[k] == a2;
                                    assert(fl[k] == a2);
                                    assert(fl.contains(a2));
                                }
                            }
                        }
                    },
                    Err(e) => {
                        proof {
                            nv.lemma_filter_contains(pa, x as int);
                            let an = aggregate_names(t, id);
                            assert(an == nv.filter(pa));
                            let k = choose|k: int| 0 <= k < an.len() && an[k] == a;
                            assert(!layer_dirs_named(t, context_path(id).push(an[k])));
                        }
                        return Err(e);
                    },
                }
            }
            x = x + 1;
        }
        proof {
            assert(nv.subrange(0, nv.len() as int) =~= nv);
            let an = aggregate_names(t, id);
            assert forall|i: int| 0 <= i < an.len() implies #[trigger] layer_dirs_named(t, context_path(id).push(an[i])) by {
                assert(an.contains(an[i]));
            }
        }
        Ok(Some(BoundedContext::new(bounded_context_id.clone(), aggregates)))
    }

    /// Writes `bounded_context` into the tree: its directory, one directory per
    /// aggregate, layer and component kind, one file per component (created
    /// empty, never overwritten), and a regenerated index in every directory it
    /// touches. Content already in the tree is kept. When the write would put a
    /// directory where a file is, a file where a directory is, or a name that
    /// cannot be a path segment on disk, nothing is changed and `WriteError` is
    /// returned.
    pub fn write_bounded_context(&mut self, bounded_context: &BoundedContext) -> (r: Result<
        (),
        BoundedContextRepositoryError,
    >)
        requires
            old(self).wf(),
        ensures
            final(self).base() == old(self).base(),
            final(self).wf(),
            r is Ok <==> write_admissible(old(self).tree_view(), bounded_context@),
            r is Ok ==> written(old(self).tree_view(), bounded_context@, final(self).tree_view()),
            r matches Err(e) ==> e is WriteError && final(self).tree_view() == old(self).tree_view(),
            r matches Err(BoundedContextRepositoryError::WriteError(s)) ==> exists|p: TreePath|
                (name_offender(bounded_context@, p) || conflict_offender(old(self).tree_view(), bounded_context@, p))
                    && s@ == joined(p),
    {
        let ghost b = bounded_context@;
        let ghost t0 = self.tree_view();
        match check_names(bounded_context) {
            Some(p) => {
                return Err(BoundedContextRepositoryError::WriteError(join_path(&p)));
            },
            None => {},
        }
        let (dirs, files) = plan_bounded_context(bounded_context);
        let ghost dv = paths_of(dirs@);
        let ghost fv = paths_of(files@);
        let mut indexes: Vec<Vec<String>> = Vec::new();
        let mut i: usize = 0;
        while i < dirs.len()
            invariant
                i <= dirs.len(),
                dv == paths_of(dirs@),
                paths_of(indexes@) == dv.subrange(0, i as int).map_values(|d: TreePath| index_path(d)),
            decreases dirs.len() - i,
        {
            let x = child_path(&dirs[i], String::from_str("mod.rs"));
            let ghost before = paths_of(indexes@);
            indexes.push(x);
            proof {
                reveal_strlit("mod.rs");
                assert(paths_of(indexes@) =~= before.push(index_path(dv[i as int])));
                assert(dv.subrange(0, i + 1) =~= dv.subrange(0, i as int).push(dv[i as int]));
                assert(dv.subrange(0, i + 1).map_values(|d: TreePath| index_path(d)) =~= dv.subrange(0, i as int).map_values(|d: TreePath| index_path(d)).push(index_path(dv[i as int])));
            }
            i = i + 1;
        }
        let ghost iv = paths_of(indexes@);
        proof {
            assert(dv.subrange(0, dv.len() as int) =~= dv);
            assert(iv == planned_indexes(b));
        }
        let mut i: usize = 0;
        while i < dirs.len()
            invariant
                i <= dirs.len(),
                dv == paths_of(dirs@),
                iv == paths_of(indexes@),
                t0 == self.tree_view(),
                self.wf(),
                b == bounded_context@,
                dv == planned_dirs(b),
                fv == planned_files(b),
                iv == planned_indexes(b),
                self.wf(),
                b == bounded_context@,
                dv == planned_dirs(b),
                fv == planned_files(b),
                iv == planned_indexes(b),
                fv == paths_of(files@),
                forall|k: int|
                    0 <= k < i ==> !t0.has_file(#[trigger] dv[k]) && !iv.contains(dv[k]) && !fv.contains(
                        dv[k],
                    ),
            decreases dirs.len() - i,
        {
            if self.tree.has_file(&dirs[i]) || contains_path(&indexes, &dirs[i]) || contains_path(
                &files,
                &dirs[i],
            ) {
                proof {
                    assert(dv.contains(dv[i as int]));
                }
                return Err(BoundedContextRepositoryError::WriteError(join_path(&dirs[i])));
            }
            i = i + 1;
        }
        let mut i: usize = 0;
        while i < files.len()
            invariant
                i <= files.len(),
                fv == paths_of(files@),
                t0 == self.tree_view(),
                self.wf(),
                b == bounded_context@,
                dv == planned_dirs(b),
                fv == planned_files(b),
                iv == planned_indexes(b),
                forall|k: int| 0 <= k < i ==> !t0.has_dir(#[trigger] fv[k]),
            decreases files.len() - i,
        {
            if self.tree.has_directory(&files[i]) {
                proof {
                    assert(fv.contains(fv[i as int]));
                    assert(planned_files(b).contains(fv[i as int]));
                }
                return Err(BoundedContextRepositoryError::WriteError(join_path(&files[i])));
            }
            i = i + 1;
        }
        let mut i: usize = 0;
        while i < indexes.len()
            invariant
                i <= indexes.len(),
                iv == paths_of(indexes@),
                t0 == self.tree_view(),
                self.wf(),
                b == bounded_context@,
                iv == planned_indexes(b),
                forall|k: int| 0 <= k < i ==> !t0.has_dir(#[trigger] iv[k]),
            decreases indexes.len() - i,
        {
            if self.tree.has_directory(&indexes[i]) {
                proof {
                    assert(iv.contains(iv[i as int]));
                    assert(planned_indexes(b).contains(iv[i as int]));
                }
                return Err(BoundedContextRepositoryError::WriteError(join_path(&indexes[i])));
            }
            i = i + 1;
        }
        proof {
            assert forall|d: TreePath| #[trigger] planned_dirs(b).contains(d) implies !t0.has_file(d) && !planned_indexes(b).contains(d) && !planned_files(b).contains(d) by {
                let k = choose|k: int| 0 <= k < dv.len() && dv[k] == d;
            }
            assert forall|f: TreePath| #[trigger] planned_files(b).contains(f) implies !t0.has_dir(f) by {
                let k = choose|k: int| 0 <= k < fv.len() && fv[k] == f;
            }
            assert forall|f: TreePath| #[trigger] planned_indexes(b).contains(f) implies !t0.has_dir(f) by {
                let k = choose|k: int| 0 <= k < iv.len() && iv[k] == f;
            }
            assert(write_admissible(t0, b));
        }
        // Directories, parents first.
        let mut i: usize = 0;
        while i < dirs.len()
            invariant
                i <= dirs.len(),
                dv == paths_of(dirs@),
                self.wf(),
                self.base() == old(self).base(),
                self.tree_view().files == t0.files,
                self.tree_view().dir_set() == t0.dir_set() + dv.subrange(0, i as int).to_set(),
            decreases dirs.len() - i,
        {
            self.create_directory(&dirs[i]);
            proof {
                assert(dv.subrange(0, i + 1) =~= dv.subrange(0, i as int).push(dv[i as int]));
                dv.subrange(0, i as int).lemma_push_to_set_commute(dv[i as int]);
            }
            i = i + 1;
        }
        let ghost t1 = self.tree_view();
        proof {
            assert(dv.subrange(0, dv.len() as int) =~= dv);
        }
        // Component files, created empty where none is.
        let mut i: usize = 0;
        while i < files.len()
            invariant
                i <= files.len(),
                fv == paths_of(files@),
                self.wf(),
                self.base() == old(self).base(),
                self.tree_view().dirs == t1.dirs,
                forall|q: TreePath|
                    #[trigger] self.tree_view().has_file(q) <==> t0.has_file(q) || fv.subrange(0, i as int).contains(q),
                forall|q: TreePath|
                    t0.has_file(q) ==> #[trigger] self.tree_view().contents(q) == t0.contents(q),
                forall|q: TreePath|
                    self.tree_view().has_file(q) && !t0.has_file(q) ==> #[trigger] self.tree_view().contents(q)
                        == Seq::<char>::empty(),
            decreases files.len() - i,
        {
            let ghost before = self.tree_view();
            let ghost q = fv[i as int];
            proof {
                if !before.has_file(q) {
                    lemma_push_file(before, q, Seq::empty());
                }
            }
            self.tree.create_file(clone_path(&files[i]));
            proof {
                assert(fv.subrange(0, i + 1) =~= fv.subrange(0, i as int).push(q));
                assert forall|x: TreePath| #[trigger] self.tree_view().has_file(x) <==> t0.has_file(x) || fv.subrange(0, i + 1).contains(x) by {
                    if fv.subrange(0, i as int).contains(x) {
                        let k = choose|k: int| 0 <= k < i && #[trigger] fv.subrange(0, i as int)[k] == x;
                        assert(fv.subrange(0, i + 1)[k] == x);
                    }
                    if fv.subrange(0, i + 1).contains(x) && x != q {
                        let k = choose|k: int| 0 <= k < i + 1 && #[trigger] fv.subrange(0, i + 1)[k] == x;
                        assert(fv.subrange(0, i as int)[k] == x);
                    }
                    if x == q {
                        assert(fv.subrange(0, i + 1)[i as int] == x);
                    }
                }
            }
            i = i + 1;
        }
        let ghost t2 = self.tree_view();
        proof {
            assert(fv.subrange(0, fv.len() as int) =~= fv);
        }
        // Indexes, regenerated from what each directory holds.
        let mut i: usize = 0;
        while i < dirs.len()
            invariant
                i <= dirs.len(),
                dv == paths_of(dirs@),
                iv == paths_of(indexes@),
                iv == dv.map_values(|d: TreePath| index_path(d)),
                self.wf(),
                self.base() == old(self).base(),
                self.tree_view().dirs == t1.dirs,
                forall|q: TreePath|
                    #[trigger] self.tree_view().has_file(q) <==> t2.has_file(q) || iv.subrange(0, i as int).contains(q),
                forall|q: TreePath|
                    t2.has_file(q) && !iv.contains(q) ==> #[trigger] self.tree_view().contents(q) == t2.contents(q),
                forall|d: TreePath| #[trigger] index_names(self.tree_view(), d) == index_names(t2, d),
                forall|k: int|
                    0 <= k < i ==> self.tree_view().contents(index_path(#[trigger] dv[k])) == index_text(
                        index_names(t2, dv[k]),
                    ),
            decreases dirs.len() - i,
        {
            let ghost before = self.tree_view();
            self.initialize_directory(&dirs[i]);
            proof {
                let cur = self.tree_view();
                let x = index_path(dv[i as int]);
                assert(iv[i as int] == x);
                assert(iv.subrange(0, i + 1) =~= iv.subrange(0, i as int).push(x));
                assert forall|q: TreePath| #[trigger] cur.has_file(q) <==> t2.has_file(q) || iv.subrange(0, i + 1).contains(q) by {
                    if iv.subrange(0, i as int).contains(q) {
                        let k = choose|k: int| 0 <= k < i && #[trigger] iv.subrange(0, i as int)[k] == q;
                        assert(iv.subrange(0, i + 1)[k] == q);
                    }
                    if iv.subrange(0, i + 1).contains(q) && q != x {
                        let k = choose|k: int| 0 <= k < i + 1 && #[trigger] iv.subrange(0, i + 1)[k] == q;
                        assert(iv.subrange(0, i as int)[k] == q);
                    }
                    if q == x {
                        assert(iv.subrange(0, i + 1)[i as int] == q);
                    }
                }
                assert forall|q: TreePath| t2.has_file(q) && !iv.contains(q) implies #[trigger] cur.contents(q) == t2.contents(q) by {
                    assert(iv.contains(x)) by {
                        assert(iv[i as int] == x);
                    }
                }
                assert forall|d: TreePath| #[trigger] index_names(cur, d) == index_names(t2, d) by {
                    assert(index_names(before, d) == index_names(t2, d));
                    assert(child_names(cur, d) =~= child_names(before, d));
                    assert forall|n: Seq<char>| module_names(cur, d).contains(n) <==> module_names(before, d).contains(n) by {
                        if module_names(cur, d).contains(n) {
                            let f = choose|f: Seq<char>| #[trigger] cur.has_file(d.push(f)) && f != index_file_name() && n == stem(f);
                            if d.push(f) == x {
                                assert(d.push(f).last() == x.last());
                            }
                            assert(before.has_file(d.push(f)));
                        }
                        if module_names(before, d).contains(n) {
                            let f = choose|f: Seq<char>| #[trigger] before.has_file(d.push(f)) && f != index_file_name() && n == stem(f);
                            assert(cur.has_file(d.push(f)));
                        }
                    }
                    assert(module_names(cur, d) =~= module_names(before, d));
                }
                assert forall|k: int| 0 <= k < i + 1 implies cur.contents(index_path(#[trigger] dv[k])) == index_text(index_names(t2, dv[k])) by {
                    if k < i && index_path(dv[k]) != x {
                        assert(iv.subrange(0, i as int)[k] == index_path(dv[k]));
                        assert(before.has_file(index_path(dv[k])));
                    } else if k < i {
                        assert(dv[k] =~= dv[i as int]) by {
                            assert(index_path(dv[k]).subrange(0, dv[k].len() as int) =~= dv[k]);
                            assert(x.subrange(0, dv[i as int].len() as int) =~= dv[i as int]);
                        }
                    }
                }
            }
            i = i + 1;
        }
        proof {
            let t3 = self.tree_view();
            assert(iv.subrange(0, iv.len() as int) =~= iv);
            assert(t3.dir_set() == t1.dir_set());
            assert(t3.dir_set() =~= t0.dir_set() + planned_dirs(b).to_set());
            assert forall|q: TreePath| t3.file_set().contains(q) <==> (t0.file_set() + planned_files(b).to_set() + planned_indexes(b).to_set()).contains(q) by {
                assert(t3.has_file(q) <==> t2.has_file(q) || iv.contains(q));
            }
            assert(t3.file_set() =~= t0.file_set() + planned_files(b).to_set() + planned_indexes(b).to_set());
            assert forall|d: TreePath| #[trigger] planned_dirs(b).contains(d) implies t3.contents(index_path(d)) == index_text(index_names(t3, d)) by {
                let k = choose|k: int| 0 <= k < dv.len() && dv[k] == d;
                assert(index_names(t3, dv[k]) == index_names(t2, dv[k]));
            }
            assert forall|p: TreePath| t3.has_file(p) && !planned_indexes(b).contains(p) implies #[trigger] t3.contents(p) == (
                if t0.has_file(p) { t0.contents(p) } else { Seq::empty() }) by {
                assert(t2.has_file(p));
            }
        }
        Ok(())
    }
}

/// A tree that a write produced admits the same write again.
pub proof fn lemma_rewrite_admissible(b: BoundedContextModel, t0: TreeView, t1: TreeView)
    requires
        written(t0, b, t1),
    ensures
        write_admissible(t1, b),
{
    assert forall|d: TreePath| #[trigger] planned_dirs(b).contains(d) implies !t1.has_file(d)
        && !planned_indexes(b).contains(d) && !planned_files(b).contains(d) by {
        if t1.has_file(d) {
            assert(t1.file_set().contains(d));
        }
    }
    assert forall|f: TreePath| #[trigger] planned_files(b).contains(f) implies !t1.has_dir(f) by {
        if t1.has_dir(f) {
            assert(t1.dir_set().contains(f));
        }
    }
    assert forall|f: TreePath| #[trigger] planned_indexes(b).contains(f) implies !t1.has_dir(f) by {
        if t1.has_dir(f) {
            assert(t1.dir_set().contains(f));
        }
    }
}

/// Writing a bounded context a second time changes nothing: the tree holds the
/// same directories and the same files with the same contents, indexes
/// included, as after the first write; and the second write is admitted.
pub proof fn lemma_write_idempotent(
    b: BoundedContextModel,
    t0: TreeView,
    t1: TreeView,
    t2: TreeView,
)
    requires
        written(t0, b, t1),
        written(t1, b, t2),
    ensures
        write_admissible(t1, b),
        t2.same_tree(t1),
{
    lemma_rewrite_admissible(b, t0, t1);
    assert forall|p: TreePath| t2.dir_set().contains(p) <==> t1.dir_set().contains(p) by {
        if planned_dirs(b).to_set().contains(p) {
            assert(t1.dir_set().contains(p));
        }
    }
    assert(t2.dir_set() =~= t1.dir_set());
    assert forall|p: TreePath| t2.file_set().contains(p) <==> t1.file_set().contains(p) by {
        if planned_files(b).to_set().contains(p) || planned_indexes(b).to_set().contains(p) {
            assert(t1.file_set().contains(p));
        }
    }
    assert(t2.file_set() =~= t1.file_set());
    assert forall|p: TreePath| t2.has_file(p) implies #[trigger] t2.contents(p) == t1.contents(p) by {
        assert(t2.file_set().contains(p));
        assert(t1.has_file(p));
        if planned_indexes(b).contains(p) {
            let k = choose|k: int| 0 <= k < planned_indexes(b).len() && planned_indexes(b)[k] == p;
            let d = planned_dirs(b)[k];
            assert(p == index_path(d));
            assert(planned_dirs(b).contains(d));
            assert forall|x: TreePath| t2.has_dir(x) <==> t1.has_dir(x) by {
                assert(t2.dir_set().contains(x) <==> t1.dir_set().contains(x));
            }
            assert forall|x: TreePath| t2.has_file(x) <==> t1.has_file(x) by {
                assert(t2.file_set().contains(x) <==> t1.file_set().contains(x));
            }
            assert(child_names(t2, d) =~= child_names(t1, d));
            assert(module_names(t2, d) =~= module_names(t1, d));
        }
    }
}

/// The names an index lists form a finite set.
proof fn lemma_index_names_finite(t: TreeView, d: TreePath)
    ensures
        index_names(t, d).finite(),
{
    lemma_children_set(t, d);
    let pred = |f: Seq<char>| f != index_file_name();
    let fl = t.file_names(d).filter(pred);
    let ms = fl.map_values(|f: Seq<char>| stem(f));
    assert forall|n: Seq<char>| ms.to_set().contains(n) <==> module_names(t, d).contains(n) by {
        if ms.to_set().contains(n) {
            let v = choose|v: int| 0 <= v < ms.len() && ms[v] == n;
            t.file_names(d).lemma_filter_pred(pred, v);
            t.file_names(d).lemma_filter_contains_rev(pred, fl[v]);
            lemma_file_names_contains(t, d, fl[v]);
            assert(t.has_file(d.push(fl[v])));
        }
        if module_names(t, d).contains(n) {
            let f = choose|f: Seq<char>| #[trigger] t.has_file(d.push(f)) && f != index_file_name() && n == stem(f);
            lemma_file_names_contains(t, d, f);
            let k = choose|k: int| 0 <= k < t.file_names(d).len() && t.file_names(d)[k] == f;
            t.file_names(d).lemma_filter_contains(pred, k);
            let v = choose|v: int| 0 <= v < fl.len() && fl[v] == f;
            assert(ms[v] == n);
        }
    }
    assert(ms.to_set() =~= module_names(t, d));
}

/// After a write, the index of every directory it touched lists the names that
/// directory holds, strictly increasing: sorted, and never one name twice,
/// however many times the same bounded context was written before.
pub proof fn lemma_written_indexes_sorted(b: BoundedContextModel, t0: TreeView, t1: TreeView, d: TreePath)
    requires
        written(t0, b, t1),
        planned_dirs(b).contains(d),
    ensures
        ({
            let s = sorted_names(index_names(t1, d));
            &&& strictly_sorted(s)
            &&& s.to_set() == index_names(t1, d)
            &&& t1.contents(index_path(d)) == render(s)
        }),
{
    lemma_index_names_finite(t1, d);
    lemma_sorted_names_exist(index_names(t1, d));
}

} // verus!
