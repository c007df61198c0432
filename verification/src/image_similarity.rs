//! The similarity scores of the gallery's files to the selected source image.
use vstd::prelude::*;
use crate::score::SCORE_ONE_BITS;
use crate::dir_tree::{tree_groups, DirTree};
use crate::path_key::{components, path_components, paths_equal, same_components, same_path};

verus! {

/// The score of a file that is the source image itself (the same path, compared by
/// components), which is 1.0 without asking the model; `None` for any other file,
/// whose score the model gives.
pub fn score_of_source_itself(source: &String, target: &String) -> (r: Option<u32>)
    ensures
        r == (if same_path(source@, target@) {
            Some(SCORE_ONE_BITS)
        } else {
            None::<u32>
        }),
{
    if paths_equal(source, target) {
        Some(SCORE_ONE_BITS)
    } else {
        None
    }
}

/// Map of a list of `(path components, score)` pairs; a later pair for a path
/// replaces an earlier one.
pub open spec fn map_of(s: Seq<(Seq<Seq<char>>, u32)>) -> Map<Seq<Seq<char>>, u32>
    decreases s.len(),
{
    if s.len() == 0 {
        Map::empty()
    } else {
        map_of(s.drop_last()).insert(s.last().0, s.last().1)
    }
}

/// Pairs after position `i` do not mention `k`: the map agrees on `k` with the map of
/// the first `i` pairs.
proof fn lemma_map_of_prefix(s: Seq<(Seq<Seq<char>>, u32)>, i: int, k: Seq<Seq<char>>)
    requires
        0 <= i <= s.len(),
        forall|j: int| i <= j < s.len() ==> s[j].0 != k,
    ensures
        map_of(s).contains_key(k) == map_of(s.take(i)).contains_key(k),
        map_of(s).contains_key(k) ==> map_of(s)[k] == map_of(s.take(i))[k],
    decreases s.len(),
{
    if s.len() == i {
        assert(s.take(i) =~= s);
    } else {
        assert(s.drop_last().take(i) =~= s.take(i));
        lemma_map_of_prefix(s.drop_last(), i, k);
    }
}

/// The map of a non-empty list is non-empty, and the map of an empty list is empty.
proof fn lemma_map_of_empty(s: Seq<(Seq<Seq<char>>, u32)>)
    ensures
        (map_of(s).dom() == Set::<Seq<Seq<char>>>::empty()) == (s.len() == 0),
{
    if s.len() > 0 {
        assert(map_of(s).contains_key(s.last().0));
    } else {
        assert(map_of(s).dom() =~= Set::<Seq<Seq<char>>>::empty());
    }
}

/// Every scoring outcome is a score: no file failed.
pub open spec fn all_scored(outcomes: Seq<Option<u32>>) -> bool {
    forall|i: int| 0 <= i < outcomes.len() ==> (#[trigger] outcomes[i]) is Some
}

/// The `(path components, score)` pairs that one directory's files contribute: each
/// path with its score where every file of the directory was scored, none where one
/// failed.
pub open spec fn group_pairs(paths: Seq<Seq<char>>, outcomes: Seq<Option<u32>>) -> Seq<
    (Seq<Seq<char>>, u32),
> {
    if all_scored(outcomes) {
        Seq::new(paths.len(), |i: int| (path_components(paths[i]), outcomes[i].unwrap()))
    } else {
        seq![]
    }
}

/// The pairs of a list of directory groups with their outcomes, group after group.
pub open spec fn outcome_pairs(
    groups: Seq<Seq<Seq<char>>>,
    outcomes: Seq<Seq<Option<u32>>>,
) -> Seq<(Seq<Seq<char>>, u32)>
    decreases groups.len(),
{
    if groups.len() == 0 {
        seq![]
    } else {
        outcome_pairs(groups.drop_last(), outcomes.drop_last()) + group_pairs(
            groups.last(),
            outcomes.last(),
        )
    }
}

/// The outcomes have the shape of the groups: one list per group, one outcome per path.
pub open spec fn outcomes_fit(groups: Seq<Seq<Seq<char>>>, outcomes: Seq<Seq<Option<u32>>>) -> bool {
    &&& outcomes.len() == groups.len()
    &&& forall|g: int| 0 <= g < groups.len() ==> (#[trigger] outcomes[g]).len() == groups[g].len()
}

/// Whether every outcome so far is a score. While scoring a directory's files in
/// order, the next file is worth scoring only while this holds: one failure already
/// keeps the whole directory out of the scores.
pub fn all_files_scored(outcomes: &Vec<Option<u32>>) -> (r: bool)
    ensures
        r == all_scored(outcomes@),
{
    let mut i: usize = 0;
    while i < outcomes.len()
        invariant
            i <= outcomes@.len(),
            forall|j: int| 0 <= j < i ==> (#[trigger] outcomes@[j]) is Some,
        decreases outcomes@.len() - i,
    {
        if outcomes[i].is_none() {
            return false;
        }
        i = i + 1;
    }
    true
}

/// Similarity scores by file path, each the binary32 bits of an `f32` score.
#[derive(Debug, Clone)]
pub struct ImageSimilarity {
    entries: Vec<(Vec<Vec<char>>, u32)>,
}

impl ImageSimilarity {
    /// The stored pairs in order of insertion.
    pub closed spec fn pairs(&self) -> Seq<(Seq<Seq<char>>, u32)> {
        Seq::new(self.entries@.len(), |i: int| (self.entries@[i].0.deep_view(), self.entries@[i].1))
    }

    /// The scores by path, a path standing for all paths with its components.
    pub open spec fn scores(&self) -> Map<Seq<Seq<char>>, u32> {
        map_of(self.pairs())
    }

    /// No scores.
    pub fn new() -> (r: ImageSimilarity)
        ensures
            r.scores() == Map::<Seq<Seq<char>>, u32>::empty(),
            r.pairs().len() == 0,
    {
        let r = ImageSimilarity { entries: Vec::new() };
        assert(r.pairs() =~= Seq::<(Seq<Seq<char>>, u32)>::empty());
        r
    }

    /// No file has a score.
    pub fn is_empty(&self) -> (r: bool)
        ensures
            r == (self.scores().dom() == Set::<Seq<Seq<char>>>::empty()),
    {
        proof {
            lemma_map_of_empty(self.pairs());
        }
        self.entries.len() == 0
    }

    /// The score of `path`, if it has one.
    pub fn get_score(&self, path: &String) -> (r: Option<u32>)
        ensures
            r == (if self.scores().contains_key(path_components(path@)) {
                Some(self.scores()[path_components(path@)])
            } else {
                None::<u32>
            }),
    {
        let ghost s = self.pairs();
        let key = components(path);
        let ghost k = path_components(path@);
        let mut i = self.entries.len();
        while i > 0
            invariant
                i <= self.entries@.len(),
                s == self.pairs(),
                key.deep_view() == k,
                k == path_components(path@),
                forall|j: int| i <= j < s.len() ==> s[j].0 != k,
            decreases i,
        {
            i = i - 1;
            if same_components(&self.entries[i].0, &key) {
                proof {
                    assert(s[i as int].0 == self.entries@[i as int].0.deep_view());
                    assert(s[i as int].0 == k);
                    lemma_map_of_prefix(s, i + 1, k);
                    assert(s.take(i + 1).drop_last() =~= s.take(i as int));
                    assert(s.take(i + 1).last() == s[i as int]);
                }
                return Some(self.entries[i].1);
            }
        }
        proof {
            lemma_map_of_prefix(s, 0, k);
            assert(s.take(0) =~= Seq::<(Seq<Seq<char>>, u32)>::empty());
        }
        None
    }

    /// Appends the pairs of one directory group.
    fn push_group(&mut self, paths: &Vec<String>, outcomes: &Vec<Option<u32>>)
        requires
            outcomes@.len() == paths@.len(),
        ensures
            final(self).pairs() == old(self).pairs() + group_pairs(
                paths.deep_view(),
                outcomes.deep_view(),
            ),
    {
        assert(outcomes.deep_view() =~= outcomes@);
        if !all_files_scored(outcomes) {
            assert(old(self).pairs() + group_pairs(paths.deep_view(), outcomes.deep_view())
                =~= old(self).pairs());
            return;
        }
        let ghost full = group_pairs(paths.deep_view(), outcomes.deep_view());
        let mut i: usize = 0;
        while i < paths.len()
            invariant
                i <= paths@.len(),
                outcomes@.len() == paths@.len(),
                all_scored(outcomes@),
                outcomes.deep_view() == outcomes@,
                full == group_pairs(paths.deep_view(), outcomes.deep_view()),
                full.len() == paths@.len(),
                self.pairs() == old(self).pairs() + full.take(i as int),
            decreases paths@.len() - i,
        {
            let score = match outcomes[i] {
                Some(v) => v,
                None => {
                    assert(outcomes@[i as int] is Some);
                    0
                },
            };
            let ghost before = self.pairs();
            let key = components(&paths[i]);
            let ghost kv = key.deep_view();
            self.entries.push((key, score));
            assert(self.pairs() =~= before.push((kv, score)));
            assert(full[i as int] == (kv, score));
            i = i + 1;
            assert(full.take(i as int) =~= full.take(i - 1).push((kv, score)));
        }
        assert(full.take(i as int) =~= full);
    }

    /// The scores of a scanned tree, from the scoring outcome of each of its files:
    /// `outcomes` holds, for each group of `tree.file_groups()` in order, the outcome of
    /// each of its files (the bits of the score, or `None` where loading the file or
    /// computing its score failed). A directory with a failed file contributes nothing;
    /// the others contribute each file's score under its path.
    pub fn from_tree(tree: &DirTree, outcomes: &Vec<Vec<Option<u32>>>) -> (r: ImageSimilarity)
        requires
            outcomes_fit(tree_groups(*tree), outcomes.deep_view()),
        ensures
            r.pairs() == outcome_pairs(tree_groups(*tree), outcomes.deep_view()),
            r.scores() == map_of(outcome_pairs(tree_groups(*tree), outcomes.deep_view())),
    {
        let groups = tree.file_groups();
        let ghost gs = groups.deep_view();
        let ghost os = outcomes.deep_view();
        let mut r = ImageSimilarity::new();
        let mut k: usize = 0;
        while k < groups.len()
            invariant
                k <= groups@.len(),
                gs == groups.deep_view(),
                os == outcomes.deep_view(),
                gs == tree_groups(*tree),
                outcomes_fit(gs, os),
                r.pairs() == outcome_pairs(gs.take(k as int), os.take(k as int)),
            decreases groups@.len() - k,
        {
            let ghost before = r.pairs();
            assert(os[k as int].len() == gs[k as int].len());
            r.push_group(&groups[k], &outcomes[k]);
            k = k + 1;
            assert(gs.take(k as int).drop_last() =~= gs.take(k - 1));
            assert(os.take(k as int).drop_last() =~= os.take(k - 1));
        }
        assert(gs.take(k as int) =~= gs);
        assert(os.take(k as int) =~= os);
        r
    }
}

impl Default for ImageSimilarity {
    /// No scores.
    fn default() -> (r: Self)
        ensures
            r.scores() == Map::<Seq<Seq<char>>, u32>::empty(),
    {
        ImageSimilarity::new()
    }
}

/// No two files of the groups name the same path.
pub open spec fn paths_distinct(groups: Seq<Seq<Seq<char>>>) -> bool {
    forall|g1: int, i1: int, g2: int, i2: int|
        0 <= g1 < groups.len() && 0 <= i1 < groups[g1].len() && 0 <= g2 < groups.len() && 0
            <= i2 < groups[g2].len() && (g1 != g2 || i1 != i2) ==> !same_path(
            #[trigger] groups[g1][i1],
            #[trigger] groups[g2][i2],
        )
}

proof fn lemma_failed_group_drops(
    groups: Seq<Seq<Seq<char>>>,
    outcomes: Seq<Seq<Option<u32>>>,
    g: int,
)
    requires
        outcomes.len() == groups.len(),
        0 <= g < groups.len(),
        !all_scored(outcomes[g]),
    ensures
        outcome_pairs(groups, outcomes) == outcome_pairs(groups.remove(g), outcomes.remove(g)),
    decreases groups.len(),
{
    if g == groups.len() - 1 {
        assert(groups.remove(g) =~= groups.drop_last());
        assert(outcomes.remove(g) =~= outcomes.drop_last());
        assert(outcome_pairs(groups, outcomes) =~= outcome_pairs(
            groups.drop_last(),
            outcomes.drop_last(),
        ));
    } else {
        lemma_failed_group_drops(groups.drop_last(), outcomes.drop_last(), g);
        assert(groups.remove(g).drop_last() =~= groups.drop_last().remove(g));
        assert(outcomes.remove(g).drop_last() =~= outcomes.drop_last().remove(g));
        assert(groups.remove(g).last() == groups.last());
        assert(outcomes.remove(g).last() == outcomes.last());
    }
}

proof fn lemma_group_reads_back(
    groups: Seq<Seq<Seq<char>>>,
    outcomes: Seq<Seq<Option<u32>>>,
    g: int,
    i: int,
)
    requires
        outcomes_fit(groups, outcomes),
        paths_distinct(groups),
        0 <= g < groups.len(),
        0 <= i < groups[g].len(),
        all_scored(outcomes[g]),
    ensures
        map_of(outcome_pairs(groups, outcomes)).contains_key(path_components(groups[g][i])),
        map_of(outcome_pairs(groups, outcomes))[path_components(groups[g][i])]
            == outcomes[g][i].unwrap(),
    decreases groups.len(),
{
    let k = path_components(groups[g][i]);
    let last = groups.len() - 1;
    let front = outcome_pairs(groups.drop_last(), outcomes.drop_last());
    let tail = group_pairs(groups.last(), outcomes.last());
    let s = outcome_pairs(groups, outcomes);
    assert(s == front + tail);
    if g == last {
        let p = front.len() + i;
        assert(tail[i] == (k, outcomes[g][i].unwrap()));
        assert forall|j: int| p + 1 <= j < s.len() implies s[j].0 != k by {
            let jj = j - front.len();
            assert(s[j] == tail[jj]);
            assert(!same_path(groups[g][jj], groups[g][i]));
        }
        lemma_map_of_prefix(s, p + 1, k);
        assert(s.take(p + 1).drop_last() =~= s.take(p));
        assert(s.take(p + 1).last() == s[p]);
    } else {
        assert forall|j: int| front.len() <= j < s.len() implies s[j].0 != k by {
            let jj = j - front.len();
            assert(s[j] == tail[jj]);
            if all_scored(outcomes.last()) {
                assert(!same_path(groups[last][jj], groups[g][i]));
            }
        }
        lemma_map_of_prefix(s, front.len() as int, k);
        assert(s.take(front.len() as int) =~= front);
        let gd = groups.drop_last();
        let od = outcomes.drop_last();
        assert(outcomes_fit(gd, od)) by {
            assert forall|h: int| 0 <= h < gd.len() implies (#[trigger] od[h]).len()
                == gd[h].len() by {
                assert(od[h] == outcomes[h]);
            }
        }
        assert(paths_distinct(gd)) by {
            assert forall|g1: int, i1: int, g2: int, i2: int|
                0 <= g1 < gd.len() && 0 <= i1 < gd[g1].len() && 0 <= g2 < gd.len() && 0 <= i2
                    < gd[g2].len() && (g1 != g2 || i1 != i2) implies !same_path(
                #[trigger] gd[g1][i1],
                #[trigger] gd[g2][i2],
            ) by {
                assert(gd[g1] == groups[g1]);
                assert(gd[g2] == groups[g2]);
                assert(!same_path(groups[g1][i1], groups[g2][i2]));
            }
        }
        lemma_group_reads_back(gd, od, g, i);
    }
}

/// A directory with a failed file contributes nothing to the scores of a tree: the
/// pairs are those of the tree's other directories, in order.
pub proof fn lemma_failure_drops_directory(tree: DirTree, outcomes: Seq<Seq<Option<u32>>>, g: int)
    requires
        outcomes_fit(tree_groups(tree), outcomes),
        0 <= g < tree_groups(tree).len(),
        exists|i: int| 0 <= i < outcomes[g].len() && (#[trigger] outcomes[g][i]) is None,
    ensures
        outcome_pairs(tree_groups(tree), outcomes) == outcome_pairs(
            tree_groups(tree).remove(g),
            outcomes.remove(g),
        ),
{
    assert(!all_scored(outcomes[g]));
    lemma_failed_group_drops(tree_groups(tree), outcomes, g);
}

/// In a tree whose files name distinct paths, a file of a directory whose files were all
/// scored has exactly the score computed for it.
pub proof fn lemma_scores_read_back(
    tree: DirTree,
    outcomes: Seq<Seq<Option<u32>>>,
    g: int,
    i: int,
)
    requires
        outcomes_fit(tree_groups(tree), outcomes),
        paths_distinct(tree_groups(tree)),
        0 <= g < tree_groups(tree).len(),
        0 <= i < tree_groups(tree)[g].len(),
        forall|j: int| 0 <= j < outcomes[g].len() ==> (#[trigger] outcomes[g][j]) is Some,
    ensures
        map_of(outcome_pairs(tree_groups(tree), outcomes)).contains_key(
            path_components(tree_groups(tree)[g][i]),
        ),
        map_of(outcome_pairs(tree_groups(tree), outcomes))[path_components(
            tree_groups(tree)[g][i],
        )] == outcomes[g][i].unwrap(),
{
    assert(all_scored(outcomes[g]));
    lemma_group_reads_back(tree_groups(tree), outcomes, g, i);
}

/// The scores of a tree in which every file was scored: each directory contributes the
/// pairs of all its files, whatever their number, so there is one pair per file of the
/// tree, each the file's path with its own score.
pub proof fn lemma_fully_scored_tree(tree: DirTree, outcomes: Seq<Seq<Option<u32>>>)
    requires
        outcomes_fit(tree_groups(tree), outcomes),
        forall|g: int, i: int|
            0 <= g < outcomes.len() && 0 <= i < outcomes[g].len() ==> (#[trigger] outcomes[g][i]) is Some,
    ensures
        outcome_pairs(tree_groups(tree), outcomes) == all_pairs(tree_groups(tree), outcomes),
{
    lemma_fully_scored_groups(tree_groups(tree), outcomes);
}

/// Every path of every group with its outcome's score, group after group.
pub open spec fn all_pairs(groups: Seq<Seq<Seq<char>>>, outcomes: Seq<Seq<Option<u32>>>) -> Seq<
    (Seq<Seq<char>>, u32),
>
    decreases groups.len(),
{
    if groups.len() == 0 {
        seq![]
    } else {
        all_pairs(groups.drop_last(), outcomes.drop_last()) + Seq::new(
            groups.last().len(),
            |i: int| (path_components(groups.last()[i]), outcomes.last()[i].unwrap()),
        )
    }
}

proof fn lemma_fully_scored_groups(groups: Seq<Seq<Seq<char>>>, outcomes: Seq<Seq<Option<u32>>>)
    requires
        outcomes.len() == groups.len(),
        forall|g: int, i: int|
            0 <= g < outcomes.len() && 0 <= i < outcomes[g].len() ==> (#[trigger] outcomes[g][i]) is Some,
    ensures
        outcome_pairs(groups, outcomes) == all_pairs(groups, outcomes),
    decreases groups.len(),
{
    if groups.len() > 0 {
        let od = outcomes.drop_last();
        assert forall|g: int, i: int| 0 <= g < od.len() && 0 <= i < od[g].len() implies (
        #[trigger] od[g][i]) is Some by {
            assert(od[g] == outcomes[g]);
        }
        lemma_fully_scored_groups(groups.drop_last(), od);
        let last = outcomes.last();
        assert forall|i: int| 0 <= i < last.len() implies (#[trigger] last[i]) is Some by {
            assert(last == outcomes[outcomes.len() - 1]);
        }
        assert(all_scored(last));
    }
}

/// The score of a path is the one of its latest pair: adding a pair for `k` gives `k`
/// that score and leaves every other path as it was, with or without a score.
pub proof fn lemma_map_of_latest_wins(
    s: Seq<(Seq<Seq<char>>, u32)>,
    k: Seq<Seq<char>>,
    v: u32,
    other: Seq<Seq<char>>,
)
    requires
        other != k,
    ensures
        map_of(s.push((k, v))).contains_key(k),
        map_of(s.push((k, v)))[k] == v,
        map_of(s.push((k, v))).contains_key(other) == map_of(s).contains_key(other),
        map_of(s).contains_key(other) ==> map_of(s.push((k, v)))[other] == map_of(s)[other],
        !map_of(Seq::<(Seq<Seq<char>>, u32)>::empty()).contains_key(k),
{
    assert(s.push((k, v)).drop_last() =~= s);
    assert(s.push((k, v)).last() == (k, v));
}

} // verus!
