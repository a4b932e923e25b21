//! The listing projection: the bounded contexts of the source tree and the
//! aggregates of each, for discovery and selection.
use vstd::prelude::*;
use crate::bounded_context_repository::reserved_name;
use crate::index_file::names_of;
use crate::source_tree::{lemma_children_set, lemma_filter_no_duplicates, path_of, SourceTree, TreeView};
use crate::text::str_eq;

verus! {

broadcast use vstd::seq_lib::group_seq_properties;

/// Listing could not be done; the message says why.
#[derive(Debug)]
pub enum FindBoundedContextsRepositoryError {
    ListError(String),
}

impl FindBoundedContextsRepositoryError {
    /// The message shown for the error.
    pub open spec fn text(&self) -> Seq<char> {
        match self {
            FindBoundedContextsRepositoryError::ListError(s) => "An error occurred while trying to list bounded contexts: "@ + s@,
        }
    }

    pub fn message(&self) -> (r: String)
        ensures
            r@ == self.text(),
    {
        match self {
            FindBoundedContextsRepositoryError::ListError(s) => {
                let mut r = String::from_str("An error occurred while trying to list bounded contexts: ");
                r.append(s.as_str());
                r
            },
        }
    }
}

/// A bounded context as listed: its name and the names of its aggregates.
pub struct BoundedContextReadModel {
    pub name: String,
    pub aggregates: Vec<String>,
}

/// What a listed bounded context is.
pub struct ReadModelView {
    pub name: Seq<char>,
    pub aggregates: Seq<Seq<char>>,
}

impl BoundedContextReadModel {
    pub open spec fn model(&self) -> ReadModelView {
        ReadModelView { name: self.name@, aggregates: names_of(self.aggregates@) }
    }
}

/// The views of a sequence of listed bounded contexts.
pub open spec fn read_models(v: Seq<BoundedContextReadModel>) -> Seq<ReadModelView> {
    v.map_values(|m: BoundedContextReadModel| m.model())
}

/// The listing of a tree: every directory of the source root but `core`, in
/// listing order, with the names of its sub-directories.
pub open spec fn listing(t: TreeView) -> Seq<ReadModelView> {
    t.children(Seq::empty()).filter(|n: Seq<char>| n != reserved_name()).map_values(
        |n: Seq<char>| ReadModelView { name: n, aggregates: t.children(seq![n]) },
    )
}

/// The listing repository over an in-memory source tree.
pub struct FilesystemFindBoundedContextsRepository {
    tree: SourceTree,
}

impl FilesystemFindBoundedContextsRepository {
    /// The tree it lists.
    pub closed spec fn tree_view(&self) -> TreeView {
        self.tree@
    }

    pub closed spec fn wf(&self) -> bool {
        self.tree.wf()
    }

    pub fn new(tree: SourceTree) -> (r: FilesystemFindBoundedContextsRepository)
        requires
            tree.wf(),
        ensures
            r.wf(),
            r.tree_view() == tree@,
    {
        FilesystemFindBoundedContextsRepository { tree }
    }

    /// Lists the bounded contexts, `core` left out, each with its aggregate
    /// directories; nothing below those is read.
    pub fn list_bounded_contexts(&self) -> (r: Result<
        Vec<BoundedContextReadModel>,
        FindBoundedContextsRepositoryError,
    >)
        requires
            self.wf(),
        ensures
            r matches Ok(v) && read_models(v@) == listing(self.tree_view()),
            listing(self.tree_view()).map_values(|m: ReadModelView| m.name).no_duplicates(),
    {
        let ghost t = self.tree_view();
        proof {
            let pa = |n: Seq<char>| n != reserved_name();
            lemma_children_set(t, Seq::empty());
            lemma_filter_no_duplicates(t.children(Seq::empty()), pa);
            assert(listing(t).map_values(|m: ReadModelView| m.name) =~= t.children(Seq::empty()).filter(pa));
        }
        let root: Vec<String> = Vec::new();
        proof {
            assert(path_of(root) =~= Seq::<Seq<char>>::empty());
        }
        let names = self.tree.list_directories(&root);
        let ghost nv = names_of(names@);
        proof {
            assert(nv =~= names@.map_values(|s: String| s@));
        }
        let ghost pa = |n: Seq<char>| n != reserved_name();
        let ghost g = |n: Seq<char>| ReadModelView { name: n, aggregates: t.children(seq![n]) };
        let mut out: Vec<BoundedContextReadModel> = Vec::new();
        let mut x: usize = 0;
        proof {
            assert(read_models(out@) =~= nv.subrange(0, 0).filter(pa).map_values(g));
        }
        while x < names.len()
            invariant
                x <= names.len(),
                t == self.tree_view(),
                nv == names_of(names@),
                nv == t.children(Seq::empty()),
                pa == (|n: Seq<char>| n != reserved_name()),
                g == (|n: Seq<char>| ReadModelView { name: n, aggregates: t.children(seq![n]) }),
                read_models(out@) == nv.subrange(0, x as int).filter(pa).map_values(g),
            decreases names.len() - x,
        {
            let ghost n = nv[x as int];
            let ghost before = read_models(out@);
            proof {
                reveal_strlit("core");
                assert(nv.subrange(0, x + 1) =~= nv.subrange(0, x as int).push(n));
                nv.subrange(0, x as int).lemma_filter_push(n, pa);
            }
            if !str_eq(names[x].as_str(), "core") {
                let mut dir: Vec<String> = Vec::new();
                dir.push(names[x].clone());
                proof {
                    assert(path_of(dir) =~= seq![n]);
                }
                let aggregates = self.tree.list_directories(&dir);
                let m = BoundedContextReadModel { name: names[x].clone(), aggregates };
                out.push(m);
                proof {
                    assert(names_of(m.aggregates@) =~= m.aggregates@.map_values(|s: String| s@));
                    assert(read_models(out@) =~= before.push(g(n)));
                    let fl = nv.subrange(0, x as int).filter(pa);
                    assert(fl.push(n).map_values(g) =~= fl.map_values(g).push(g(n)));
                }
            }
            x = x + 1;
        }
        proof {
            assert(nv.subrange(0, nv.len() as int) =~= nv);
        }
        Ok(out)
    }
}

} // verus!
