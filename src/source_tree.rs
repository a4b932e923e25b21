//! An in-memory image of a source directory tree, with the primitives the
//! projection needs (exists, list, create directory, write file) and a journal
//! of every change, so that the changes can be replayed on a real disk.
use vstd::prelude::*;
use crate::text::str_eq;

verus! {

broadcast use vstd::seq_lib::group_seq_properties;

/// A path relative to the source root, one string per segment.
pub type TreePath = Seq<Seq<char>>;

/// The segments of an executable path.
pub open spec fn path_of(v: Vec<String>) -> TreePath {
    v@.map_values(|s: String| s@)
}

/// Whether `p` names an entry directly inside the directory `dir`.
pub open spec fn is_child(p: TreePath, dir: TreePath) -> bool {
    p.len() == dir.len() + 1 && p.subrange(0, dir.len() as int) == dir
}

/// A file of the tree and its contents.
#[derive(Clone)]
pub struct SourceFile {
    pub path: Vec<String>,
    pub contents: String,
}

/// One change made to the tree, in the order it was made.
#[derive(Clone, Debug)]
pub enum TreeChange {
    /// A new directory; its parent exists.
    CreateDirectory(Vec<String>),
    /// A new empty file, created only where no file was.
    CreateFile(Vec<String>),
    /// A file written with the given contents, created or replaced.
    WriteFile(Vec<String>, String),
}

/// What a tree is: its directories and its files with their contents.
pub struct TreeView {
    pub dirs: Seq<TreePath>,
    pub files: Seq<(TreePath, Seq<char>)>,
}

impl TreeView {
    pub open spec fn has_dir(self, p: TreePath) -> bool {
        self.dirs.contains(p)
    }

    pub open spec fn has_file(self, p: TreePath) -> bool {
        exists|i: int| 0 <= i < self.files.len() && (#[trigger] self.files[i]).0 == p
    }

    /// The contents of the file at `p`.
    pub open spec fn contents(self, p: TreePath) -> Seq<char> {
        self.files[choose|i: int| 0 <= i < self.files.len() && (#[trigger] self.files[i]).0 == p].1
    }

    /// The set of directory paths.
    pub open spec fn dir_set(self) -> Set<TreePath> {
        self.dirs.to_set()
    }

    /// The set of file paths.
    pub open spec fn file_set(self) -> Set<TreePath> {
        Set::new(|p: TreePath| self.has_file(p))
    }

    /// No directory or file is listed twice.
    pub open spec fn wf(self) -> bool {
        &&& self.dirs.no_duplicates()
        &&& forall|i: int, j: int|
            0 <= i < j < self.files.len() ==> (#[trigger] self.files[i]).0 != (#[trigger] self.files[j]).0
    }

    /// The names of the sub-directories of `dir`, in listing order.
    pub open spec fn children(self, dir: TreePath) -> Seq<Seq<char>> {
        self.dirs.filter(|p: TreePath| is_child(p, dir)).map_values(|p: TreePath| p.last())
    }

    /// The names of the files directly inside `dir`, in listing order.
    pub open spec fn file_names(self, dir: TreePath) -> Seq<Seq<char>> {
        self.files.filter(|f: (TreePath, Seq<char>)| is_child(f.0, dir)).map_values(
            |f: (TreePath, Seq<char>)| f.0.last(),
        )
    }

    /// Both trees hold the same directories, and the same files with the same contents.
    pub open spec fn same_tree(self, other: TreeView) -> bool {
        &&& self.dir_set() == other.dir_set()
        &&& self.file_set() == other.file_set()
        &&& forall|p: TreePath| self.has_file(p) ==> #[trigger] self.contents(p) == other.contents(p)
    }
}

/// The tree after one change.
pub open spec fn apply_change(t: TreeView, c: TreeChange) -> TreeView {
    match c {
        TreeChange::CreateDirectory(p) => if t.has_dir(path_of(p)) {
            t
        } else {
            TreeView { dirs: t.dirs.push(path_of(p)), files: t.files }
        },
        TreeChange::CreateFile(p) => if t.has_file(path_of(p)) {
            t
        } else {
            TreeView { dirs: t.dirs, files: t.files.push((path_of(p), Seq::empty())) }
        },
        TreeChange::WriteFile(p, s) => if t.has_file(path_of(p)) {
            TreeView {
                dirs: t.dirs,
                files: t.files.update(
                    choose|i: int| 0 <= i < t.files.len() && (#[trigger] t.files[i]).0 == path_of(p),
                    (path_of(p), s@),
                ),
            }
        } else {
            TreeView { dirs: t.dirs, files: t.files.push((path_of(p), s@)) }
        },
    }
}

/// The source tree held in memory.
#[derive(Clone)]
pub struct SourceTree {
    directories: Vec<Vec<String>>,
    files: Vec<SourceFile>,
    changes: Vec<TreeChange>,
    base: Ghost<TreeView>,
}

/// The tree after the changes `cs`, made in order from `t`.
pub open spec fn replay(t: TreeView, cs: Seq<TreeChange>) -> TreeView
    decreases cs.len(),
{
    if cs.len() == 0 {
        t
    } else {
        apply_change(replay(t, cs.drop_last()), cs.last())
    }
}

impl View for SourceTree {
    type V = TreeView;

    closed spec fn view(&self) -> TreeView {
        TreeView {
            dirs: self.directories@.map_values(|p: Vec<String>| path_of(p)),
            files: self.files@.map_values(|f: SourceFile| (path_of(f.path), f.contents@)),
        }
    }
}

/// Clones a path, keeping its segments.
pub fn clone_path(p: &Vec<String>) -> (r: Vec<String>)
    ensures
        path_of(r) == path_of(*p),
{
    let r = p.clone();
    proof {
        assert(path_of(r) =~= path_of(*p));
    }
    r
}

/// Segment-wise equality of two paths.
pub fn path_eq(a: &Vec<String>, b: &Vec<String>) -> (r: bool)
    ensures
        r == (path_of(*a) == path_of(*b)),
{
    if a.len() != b.len() {
        proof {
            assert(path_of(*a).len() != path_of(*b).len());
        }
        return false;
    }
    let mut i: usize = 0;
    while i < a.len()
        invariant
            a.len() == b.len(),
            i <= a.len(),
            forall|k: int| 0 <= k < i ==> a@[k]@ == b@[k]@,
        decreases a.len() - i,
    {
        if !str_eq(a[i].as_str(), b[i].as_str()) {
            proof {
                assert(path_of(*a)[i as int] != path_of(*b)[i as int]);
            }
            return false;
        }
        i = i + 1;
    }
    proof {
        assert(path_of(*a) =~= path_of(*b));
    }
    true
}

/// Whether `p` lies directly inside `dir`.
pub fn path_is_child(p: &Vec<String>, dir: &Vec<String>) -> (r: bool)
    ensures
        r == is_child(path_of(*p), path_of(*dir)),
{
    if p.len() == 0 || p.len() - 1 != dir.len() {
        return false;
    }
    let mut i: usize = 0;
    while i < dir.len()
        invariant
            p.len() == dir.len() + 1,
            i <= dir.len(),
            forall|k: int| 0 <= k < i ==> p@[k]@ == dir@[k]@,
        decreases dir.len() - i,
    {
        if !str_eq(p[i].as_str(), dir[i].as_str()) {
            proof {
                assert(path_of(*p).subrange(0, dir.len() as int)[i as int] != path_of(*dir)[i as int]);
            }
            return false;
        }
        i = i + 1;
    }
    proof {
        assert(path_of(*p).subrange(0, dir.len() as int) =~= path_of(*dir));
    }
    true
}

impl SourceTree {
    /// No entry is listed twice, and the journal leads from the base to the current tree.
    pub open spec fn wf(&self) -> bool {
        &&& self@.wf()
        &&& replay(self.base(), self.journal()) == self@
    }

    /// The tree as it was when the journal was last started.
    pub closed spec fn base(&self) -> TreeView {
        self.base@
    }

    /// The changes made since the tree was built, oldest first.
    pub closed spec fn journal(&self) -> Seq<TreeChange> {
        self.changes@
    }

    /// An empty tree.
    pub fn new() -> (r: SourceTree)
        ensures
            r.wf(),
            r@.dirs.len() == 0,
            r@.files.len() == 0,
            r.journal().len() == 0,
    {
        let ghost empty = TreeView { dirs: Seq::empty(), files: Seq::empty() };
        let r = SourceTree {
            directories: Vec::new(),
            files: Vec::new(),
            changes: Vec::new(),
            base: Ghost(empty),
        };
        proof {
            assert(r@.dirs =~= Seq::<TreePath>::empty());
            assert(r@.files =~= empty.files);
        }
        r
    }

    /// The changes made since the tree was built or last drained, oldest first.
    pub fn changes(&self) -> (r: &Vec<TreeChange>)
        ensures
            r@ == self.journal(),
    {
        &self.changes
    }

    /// Hands out the journal and starts a new, empty one.
    pub fn take_changes(&mut self) -> (r: Vec<TreeChange>)
        requires
            old(self).wf(),
        ensures
            r@ == old(self).journal(),
            replay(old(self).base(), r@) == final(self)@,
            final(self).journal().len() == 0,
            final(self).base() == old(self)@,
            final(self)@ == old(self)@,
            final(self).wf(),
    {
        let mut r: Vec<TreeChange> = Vec::new();
        std::mem::swap(&mut r, &mut self.changes);
        self.base = Ghost(self@);
        r
    }

    pub fn has_directory(&self, p: &Vec<String>) -> (r: bool)
        ensures
            r == self@.has_dir(path_of(*p)),
    {
        let mut i: usize = 0;
        while i < self.directories.len()
            invariant
                i <= self.directories.len(),
                forall|k: int| 0 <= k < i ==> self@.dirs[k] != path_of(*p),
            decreases self.directories.len() - i,
        {
            if path_eq(&self.directories[i], p) {
                proof {
                    assert(self@.dirs[i as int] == path_of(*p));
                }
                return true;
            }
            i = i + 1;
        }
        false
    }

    /// The position of the file at `p`, if there is one.
    pub fn find_file(&self, p: &Vec<String>) -> (r: Option<usize>)
        ensures
            r is None <==> !self@.has_file(path_of(*p)),
            r matches Some(i) ==> i < self@.files.len() && self@.files[i as int].0 == path_of(*p),
    {
        let mut i: usize = 0;
        while i < self.files.len()
            invariant
                i <= self.files.len(),
                forall|k: int| 0 <= k < i ==> (#[trigger] self@.files[k]).0 != path_of(*p),
            decreases self.files.len() - i,
        {
            if path_eq(&self.files[i].path, p) {
                proof {
                    assert(self@.files[i as int].0 == path_of(*p));
                }
                return Some(i);
            }
            i = i + 1;
        }
        None
    }

    /// The contents of the file at `p`, if there is one.
    pub fn read_file(&self, p: &Vec<String>) -> (r: Option<String>)
        requires
            self.wf(),
        ensures
            r is None <==> !self@.has_file(path_of(*p)),
            r matches Some(c) ==> c@ == self@.contents(path_of(*p)),
    {
        match self.find_file(p) {
            Some(i) => {
                proof {
                    let j = choose|j: int| 0 <= j < self@.files.len() && (#[trigger] self@.files[j]).0 == path_of(*p);
                    if j != i {
                        if j < i {
                            assert(self@.files[j].0 != self@.files[i as int].0);
                        } else {
                            assert(self@.files[i as int].0 != self@.files[j].0);
                        }
                    }
                }
                Some(self.files[i].contents.clone())
            },
            None => None,
        }
    }

    pub fn has_file(&self, p: &Vec<String>) -> (r: bool)
        ensures
            r == self@.has_file(path_of(*p)),
    {
        self.find_file(p).is_some()
    }

    /// Creates the directory `p` unless it exists, and records the change.
    pub fn create_directory(&mut self, p: Vec<String>)
        requires
            old(self).wf(),
        ensures
            final(self).base() == old(self).base(),
            final(self).wf(),
            final(self)@ == apply_change(old(self)@, TreeChange::CreateDirectory(p)),
            old(self)@.has_dir(path_of(p)) ==> final(self).journal() == old(self).journal(),
            !old(self)@.has_dir(path_of(p)) ==> final(self).journal() == old(self).journal().push(
                TreeChange::CreateDirectory(p),
            ),
    {
        if self.has_directory(&p) {
            return;
        }
        let ghost before = self@;
        let q = clone_path(&p);
        self.directories.push(q);
        let ghost before_changes = self.changes@;
        self.changes.push(TreeChange::CreateDirectory(p));
        proof {
            assert(self.changes@.drop_last() =~= before_changes);
            assert(self@.dirs =~= before.dirs.push(path_of(p)));
            assert(self@.files =~= before.files);
        }
    }

    /// Creates the empty file `p` unless a file is there, and records the change.
    pub fn create_file(&mut self, p: Vec<String>)
        requires
            old(self).wf(),
        ensures
            final(self).base() == old(self).base(),
            final(self).wf(),
            final(self)@ == apply_change(old(self)@, TreeChange::CreateFile(p)),
            old(self)@.has_file(path_of(p)) ==> final(self).journal() == old(self).journal(),
            !old(self)@.has_file(path_of(p)) ==> final(self).journal() == old(self).journal().push(
                TreeChange::CreateFile(p),
            ),
    {
        if self.has_file(&p) {
            return;
        }
        let ghost before = self@;
        let q = clone_path(&p);
        self.files.push(SourceFile { path: q, contents: String::new() });
        let ghost before_changes = self.changes@;
        self.changes.push(TreeChange::CreateFile(p));
        proof {
            assert(self.changes@.drop_last() =~= before_changes);
            assert(self@.files =~= before.files.push((path_of(p), Seq::empty())));
            assert(self@.dirs =~= before.dirs);
        }
    }

    /// Writes `contents` to the file `p`, creating or replacing it, and records the change.
    pub fn write_file(&mut self, p: Vec<String>, contents: String)
        requires
            old(self).wf(),
        ensures
            final(self).base() == old(self).base(),
            final(self).wf(),
            final(self)@ == apply_change(old(self)@, TreeChange::WriteFile(p, contents)),
            final(self).journal() == old(self).journal().push(TreeChange::WriteFile(p, contents)),
    {
        let ghost before = self@;
        let q = clone_path(&p);
        let c = contents.clone();
        match self.find_file(&p) {
            Some(i) => {
                self.files.set(i, SourceFile { path: q, contents: c });
                proof {
                    let j = choose|j: int|
                        0 <= j < before.files.len() && (#[trigger] before.files[j]).0 == path_of(p);
                    assert(j == i);
                    assert(self@.files =~= before.files.update(i as int, (path_of(p), contents@)));
                    assert(self@.dirs =~= before.dirs);
                }
            },
            None => {
                self.files.push(SourceFile { path: q, contents: c });
                proof {
                    assert(self@.files =~= before.files.push((path_of(p), contents@)));
                    assert(self@.dirs =~= before.dirs);
                }
            },
        }
        let ghost before_changes = self.changes@;
        self.changes.push(TreeChange::WriteFile(p, contents));
        proof {
            assert(self.changes@.drop_last() =~= before_changes);
        }
    }

    /// The names of the sub-directories of `dir`, in listing order.
    pub fn list_directories(&self, dir: &Vec<String>) -> (r: Vec<String>)
        ensures
            r@.map_values(|s: String| s@) == self@.children(path_of(*dir)),
    {
        let mut r: Vec<String> = Vec::new();
        let mut i: usize = 0;
        let ghost pred = |p: TreePath| is_child(p, path_of(*dir));
        while i < self.directories.len()
            invariant
                i <= self.directories.len(),
                pred == (|p: TreePath| is_child(p, path_of(*dir))),
                r@.map_values(|s: String| s@) == self@.dirs.subrange(0, i as int).filter(pred).map_values(
                    |p: TreePath| p.last(),
                ),
            decreases self.directories.len() - i,
        {
            let d = &self.directories[i];
            let ghost before = r@;
            proof {
                assert(self@.dirs.subrange(0, i + 1) =~= self@.dirs.subrange(0, i as int).push(
                    self@.dirs[i as int],
                ));
                assert(self@.dirs[i as int] == path_of(*d));
            }
            proof {
                self@.dirs.subrange(0, i as int).lemma_filter_push(self@.dirs[i as int], pred);
            }
            if path_is_child(d, dir) {
                let name = d[d.len() - 1].clone();
                r.push(name);
                proof {
                    assert(r@.map_values(|s: String| s@) =~= before.map_values(|s: String| s@).push(
                        name@,
                    ));
                    assert(path_of(*d).last() == name@);
                    let fl = self@.dirs.subrange(0, i as int).filter(pred);
                    assert(fl.push(self@.dirs[i as int]).map_values(|p: TreePath| p.last())
                        =~= fl.map_values(|p: TreePath| p.last()).push(name@));
                }
            }
            i = i + 1;
        }
        proof {
            assert(self@.dirs.subrange(0, self@.dirs.len() as int) =~= self@.dirs);
        }
        r
    }

    /// The names of the files directly inside `dir`, in listing order.
    pub fn list_files(&self, dir: &Vec<String>) -> (r: Vec<String>)
        ensures
            r@.map_values(|s: String| s@) == self@.file_names(path_of(*dir)),
    {
        let mut r: Vec<String> = Vec::new();
        let mut i: usize = 0;
        let ghost pred = |f: (TreePath, Seq<char>)| is_child(f.0, path_of(*dir));
        while i < self.files.len()
            invariant
                i <= self.files.len(),
                pred == (|f: (TreePath, Seq<char>)| is_child(f.0, path_of(*dir))),
                r@.map_values(|s: String| s@) == self@.files.subrange(0, i as int).filter(pred).map_values(
                    |f: (TreePath, Seq<char>)| f.0.last(),
                ),
            decreases self.files.len() - i,
        {
            let f = &self.files[i].path;
            let ghost before = r@;
            proof {
                assert(self@.files.subrange(0, i + 1) =~= self@.files.subrange(0, i as int).push(
                    self@.files[i as int],
                ));
                assert(self@.files[i as int].0 == path_of(*f));
            }
            proof {
                self@.files.subrange(0, i as int).lemma_filter_push(self@.files[i as int], pred);
            }
            if path_is_child(f, dir) {
                let name = f[f.len() - 1].clone();
                r.push(name);
                proof {
                    assert(r@.map_values(|s: String| s@) =~= before.map_values(|s: String| s@).push(
                        name@,
                    ));
                    assert(path_of(*f).last() == name@);
                    let fl = self@.files.subrange(0, i as int).filter(pred);
                    assert(fl.push(self@.files[i as int]).map_values(|g: (TreePath, Seq<char>)| g.0.last())
                        =~= fl.map_values(|g: (TreePath, Seq<char>)| g.0.last()).push(name@));
                }
            }
            i = i + 1;
        }
        proof {
            assert(self@.files.subrange(0, self@.files.len() as int) =~= self@.files);
        }
        r
    }
}

} // verus!

verus! {

/// The names of the sub-directories of `dir`.
pub open spec fn child_names(t: TreeView, dir: TreePath) -> Set<Seq<char>> {
    Set::new(|n: Seq<char>| t.has_dir(dir.push(n)))
}

proof fn lemma_is_child_push(p: TreePath, dir: TreePath)
    ensures
        is_child(p, dir) <==> p == dir.push(p.last()) && p.len() > 0,
{
    if is_child(p, dir) {
        assert(p =~= dir.push(p.last()));
    }
    if p.len() > 0 && p == dir.push(p.last()) {
        assert(p.subrange(0, dir.len() as int) =~= dir);
    }
}

/// The listed sub-directory names of `dir` are exactly those of the tree.
pub proof fn lemma_children_set(t: TreeView, dir: TreePath)
    ensures
        t.children(dir).to_set() == child_names(t, dir),
        t.wf() ==> t.children(dir).no_duplicates(),
{
    let pred = |p: TreePath| is_child(p, dir);
    let fl = t.dirs.filter(pred);
    assert forall|n: Seq<char>| t.children(dir).to_set().contains(n) <==> child_names(t, dir).contains(n) by {
        if t.children(dir).contains(n) {
            let k = choose|k: int| 0 <= k < t.children(dir).len() && t.children(dir)[k] == n;
            assert(fl[k].last() == n);
            t.dirs.lemma_filter_pred(pred, k);
            t.dirs.lemma_filter_contains_rev(pred, fl[k]);
            lemma_is_child_push(fl[k], dir);
        }
        if t.has_dir(dir.push(n)) {
            let p = dir.push(n);
            lemma_is_child_push(p, dir);
            let i = choose|i: int| 0 <= i < t.dirs.len() && t.dirs[i] == p;
            t.dirs.lemma_filter_contains(pred, i);
            let k = choose|k: int| 0 <= k < fl.len() && fl[k] == p;
            assert(t.children(dir)[k] == n);
        }
    }
    assert(t.children(dir).to_set() =~= child_names(t, dir));
    if t.wf() {
        t.dirs.lemma_filter_len(pred);
        assert forall|a: int, b: int| 0 <= a < b < t.children(dir).len() implies t.children(dir)[a]
            != t.children(dir)[b] by {
            lemma_filter_no_duplicates(t.dirs, pred);
            lemma_is_child_push(fl[a], dir);
            lemma_is_child_push(fl[b], dir);
            t.dirs.lemma_filter_pred(pred, a);
            t.dirs.lemma_filter_pred(pred, b);
        }
    }
}

/// Filtering keeps a sequence free of repeats.
pub proof fn lemma_filter_no_duplicates<A>(s: Seq<A>, pred: spec_fn(A) -> bool)
    requires
        s.no_duplicates(),
    ensures
        s.filter(pred).no_duplicates(),
    decreases s.len(),
{
    reveal(Seq::filter);
    if s.len() > 0 {
        let r = s.drop_last();
        assert(r.no_duplicates());
        lemma_filter_no_duplicates(r, pred);
        if pred(s.last()) {
            assert(!r.contains(s.last()));
            if r.filter(pred).contains(s.last()) {
                let k = choose|k: int| 0 <= k < r.filter(pred).len() && r.filter(pred)[k] == s.last();
                r.lemma_filter_contains_rev(pred, s.last());
            }
        }
    }
}

/// A listed file name of `dir` is exactly a file of the tree inside `dir`.
pub proof fn lemma_file_names_contains(t: TreeView, dir: TreePath, f: Seq<char>)
    ensures
        t.file_names(dir).contains(f) <==> t.has_file(dir.push(f)),
{
    let pred = |e: (TreePath, Seq<char>)| is_child(e.0, dir);
    let fl = t.files.filter(pred);
    if t.file_names(dir).contains(f) {
        let k = choose|k: int| 0 <= k < t.file_names(dir).len() && t.file_names(dir)[k] == f;
        t.files.lemma_filter_pred(pred, k);
        t.files.lemma_filter_contains_rev(pred, fl[k]);
        lemma_is_child_push(fl[k].0, dir);
        let i = choose|i: int| 0 <= i < t.files.len() && t.files[i] == fl[k];
        assert(t.files[i].0 == dir.push(f));
    }
    if t.has_file(dir.push(f)) {
        let i = choose|i: int| 0 <= i < t.files.len() && (#[trigger] t.files[i]).0 == dir.push(f);
        lemma_is_child_push(t.files[i].0, dir);
        t.files.lemma_filter_contains(pred, i);
        let k = choose|k: int| 0 <= k < fl.len() && fl[k] == t.files[i];
        assert(t.file_names(dir)[k] == f);
    }
}

/// Appending a new file keeps the tree well formed and changes only that file.
pub proof fn lemma_push_file(t: TreeView, p: TreePath, c: Seq<char>)
    requires
        t.wf(),
        !t.has_file(p),
    ensures
        ({
            let u = TreeView { dirs: t.dirs, files: t.files.push((p, c)) };
            &&& u.wf()
            &&& forall|q: TreePath| #[trigger] u.has_file(q) <==> t.has_file(q) || q == p
            &&& u.contents(p) == c
            &&& forall|q: TreePath| t.has_file(q) ==> #[trigger] u.contents(q) == t.contents(q)
        }),
{
    let u = TreeView { dirs: t.dirs, files: t.files.push((p, c)) };
    assert forall|q: TreePath| #[trigger] u.has_file(q) <==> t.has_file(q) || q == p by {
        if t.has_file(q) {
            let i = choose|i: int| 0 <= i < t.files.len() && (#[trigger] t.files[i]).0 == q;
            assert(u.files[i].0 == q);
        }
        if q == p {
            assert(u.files[t.files.len() as int].0 == q);
        }
        if u.has_file(q) {
            let i = choose|i: int| 0 <= i < u.files.len() && (#[trigger] u.files[i]).0 == q;
            if i < t.files.len() {
                assert(t.files[i].0 == q);
            }
        }
    }
    assert(u.has_file(p));
    let j = choose|i: int| 0 <= i < u.files.len() && (#[trigger] u.files[i]).0 == p;
    if j < t.files.len() {
        assert(t.files[j].0 == p);
    }
    assert forall|q: TreePath| t.has_file(q) implies #[trigger] u.contents(q) == t.contents(q) by {
        assert(u.has_file(q));
        let i = choose|i: int| 0 <= i < t.files.len() && (#[trigger] t.files[i]).0 == q;
        let k = choose|k: int| 0 <= k < u.files.len() && (#[trigger] u.files[k]).0 == q;
        if k == t.files.len() {
            assert(u.files[k].0 == p);
        } else if k < i {
            assert(t.files[k].0 != t.files[i].0);
        } else if k > i {
            assert(t.files[i].0 != t.files[k].0);
        }
    }
}

/// Replacing the contents of a file keeps the tree well formed and changes only that file.
pub proof fn lemma_update_file(t: TreeView, i: int, c: Seq<char>)
    requires
        t.wf(),
        0 <= i < t.files.len(),
    ensures
        ({
            let p = t.files[i].0;
            let u = TreeView { dirs: t.dirs, files: t.files.update(i, (p, c)) };
            &&& u.wf()
            &&& forall|q: TreePath| #[trigger] u.has_file(q) <==> t.has_file(q)
            &&& u.contents(p) == c
            &&& forall|q: TreePath| q != p && t.has_file(q) ==> #[trigger] u.contents(q) == t.contents(q)
        }),
{
    let p = t.files[i].0;
    let u = TreeView { dirs: t.dirs, files: t.files.update(i, (p, c)) };
    assert forall|q: TreePath| #[trigger] u.has_file(q) <==> t.has_file(q) by {
        if t.has_file(q) {
            let k = choose|k: int| 0 <= k < t.files.len() && (#[trigger] t.files[k]).0 == q;
            assert(u.files[k].0 == q);
        }
        if u.has_file(q) {
            let k = choose|k: int| 0 <= k < u.files.len() && (#[trigger] u.files[k]).0 == q;
            assert(t.files[k].0 == q);
        }
    }
    assert(u.has_file(p)) by {
        assert(u.files[i].0 == p);
    }
    let j = choose|k: int| 0 <= k < u.files.len() && (#[trigger] u.files[k]).0 == p;
    if j != i {
        if j < i {
            assert(t.files[j].0 != t.files[i].0);
        } else {
            assert(t.files[i].0 != t.files[j].0);
        }
    }
    assert forall|q: TreePath| q != p && t.has_file(q) implies #[trigger] u.contents(q) == t.contents(q) by {
        assert(u.has_file(q));
        let a = choose|k: int| 0 <= k < t.files.len() && (#[trigger] t.files[k]).0 == q;
        let b = choose|k: int| 0 <= k < u.files.len() && (#[trigger] u.files[k]).0 == q;
        if a != b {
            if a < b {
                assert(t.files[a].0 != t.files[b].0);
            } else {
                assert(t.files[b].0 != t.files[a].0);
            }
        }
    }
}

} // verus!
