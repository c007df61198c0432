//! The scanned directory tree that the gallery shows.
use vstd::prelude::*;

verus! {

/// A scanned directory: its path, its video files and its subdirectories, in scan order.
#[derive(Debug)]
pub struct DirTree {
    pub path: String,
    pub sub_dirs: Vec<DirTree>,
    pub files: Vec<String>,
}

/// The file paths of a tree grouped by directory: the directory's own files first, then
/// the groups of each subdirectory in order. An empty directory has an empty group.
pub open spec fn tree_groups(d: DirTree) -> Seq<Seq<Seq<char>>>
    decreases d, 0nat,
{
    seq![d.files.deep_view()] + forest_groups(d.sub_dirs@, d.sub_dirs@.len())
}

/// The groups of the first `n` trees of `ds`, in order.
pub open spec fn forest_groups(ds: Seq<DirTree>, n: nat) -> Seq<Seq<Seq<char>>>
    decreases ds, n,
{
    if n == 0 || n > ds.len() {
        seq![]
    } else {
        forest_groups(ds, (n - 1) as nat) + tree_groups(ds[n - 1])
    }
}

/// A copy of a list of paths.
fn copy_paths(v: &Vec<String>) -> (r: Vec<String>)
    ensures
        r.deep_view() == v.deep_view(),
{
    let mut r: Vec<String> = Vec::new();
    let mut i: usize = 0;
    while i < v.len()
        invariant
            i <= v@.len(),
            r.deep_view() == v.deep_view().take(i as int),
        decreases v@.len() - i,
    {
        let ghost before = r.deep_view();
        r.push(v[i].clone());
        assert(r.deep_view() =~= before.push(v@[i as int]@));
        i = i + 1;
        assert(r.deep_view() =~= v.deep_view().take(i as int));
    }
    assert(v.deep_view().take(i as int) =~= v.deep_view());
    r
}

/// Appends the groups of the first `n` trees of `ds` to `out`.
fn push_forest_groups(ds: &Vec<DirTree>, n: usize, out: &mut Vec<Vec<String>>)
    requires
        n <= ds@.len(),
    ensures
        final(out).deep_view() == old(out).deep_view() + forest_groups(ds@, n as nat),
    decreases ds@, n,
{
    if n == 0 {
        assert(old(out).deep_view() + forest_groups(ds@, 0) =~= old(out).deep_view());
        return;
    }
    let ghost start = out.deep_view();
    push_forest_groups(ds, n - 1, out);
    ds[n - 1].push_groups(out);
    assert(out.deep_view() =~= start + forest_groups(ds@, n as nat));
}

impl DirTree {
    /// Appends the groups of this tree to `out`.
    fn push_groups(&self, out: &mut Vec<Vec<String>>)
        ensures
            final(out).deep_view() == old(out).deep_view() + tree_groups(*self),
        decreases *self, 0nat,
    {
        let ghost start = out.deep_view();
        let files = copy_paths(&self.files);
        out.push(files);
        assert(out.deep_view() =~= start + seq![self.files.deep_view()]);
        push_forest_groups(&self.sub_dirs, self.sub_dirs.len(), out);
        assert(out.deep_view() =~= start + tree_groups(*self));
    }

    /// The file paths of the tree grouped by directory, in the order of `tree_groups`.
    pub fn file_groups(&self) -> (r: Vec<Vec<String>>)
        ensures
            r.deep_view() == tree_groups(*self),
    {
        let mut r: Vec<Vec<String>> = Vec::new();
        self.push_groups(&mut r);
        assert(r.deep_view() =~= tree_groups(*self));
        r
    }

    /// A directory with the given path and nothing scanned in it yet.
    pub fn with_path(path: String) -> (r: DirTree)
        ensures
            r.path == path,
            r.sub_dirs@.len() == 0,
            r.files@.len() == 0,
    {
        DirTree { path, sub_dirs: Vec::new(), files: Vec::new() }
    }

    /// The directory holds neither files nor subdirectories.
    pub fn is_empty(&self) -> (r: bool)
        ensures
            r == (self.sub_dirs@.len() == 0 && self.files@.len() == 0),
    {
        self.sub_dirs.len() == 0 && self.files.len() == 0
    }
}

} // verus!
