//! The thumbnail grid: the directory tree cut into rows of `columns` files, each row
//! keeping the files that pass the similarity filter, with a section per directory.
use vstd::prelude::*;
use crate::dir_tree::DirTree;
use crate::image_similarity::ImageSimilarity;
use crate::score::{f32_bits_le, f32_le};
use crate::path_key::path_components;

verus! {

/// The grid of one directory: a title (the directory's path) over the rows of its own
/// files, then the sections of its subdirectories that show anything.
#[derive(Debug)]
pub struct GridSection {
    pub title: Option<String>,
    pub rows: Vec<Vec<String>>,
    pub sub_sections: Vec<GridSection>,
}

/// The mathematical form of a [`GridSection`].
pub struct SectionView {
    pub title: Option<Seq<char>>,
    pub rows: Seq<Seq<Seq<char>>>,
    pub sub_sections: Seq<SectionView>,
}

/// The view of an optional string.
pub open spec fn opt_string_view(s: Option<String>) -> Option<Seq<char>> {
    match s {
        Some(t) => Some(t@),
        None => None,
    }
}

/// The view of a grid section.
pub open spec fn section_view(g: GridSection) -> SectionView
    decreases g, 0nat,
{
    SectionView {
        title: opt_string_view(g.title),
        rows: g.rows.deep_view(),
        sub_sections: sections_view(g.sub_sections@, g.sub_sections@.len()),
    }
}

/// The views of the first `n` sections of `gs`.
pub open spec fn sections_view(gs: Seq<GridSection>, n: nat) -> Seq<SectionView>
    decreases gs, n,
{
    if n == 0 || n > gs.len() {
        seq![]
    } else {
        sections_view(gs, (n - 1) as nat).push(section_view(gs[n - 1]))
    }
}

/// The view of an optional grid section.
pub open spec fn opt_section_view(g: Option<GridSection>) -> Option<SectionView> {
    match g {
        Some(s) => Some(section_view(s)),
        None => None,
    }
}

/// A file stays shown: it has no score, or its score is at least the threshold.
pub open spec fn is_visible(scores: Map<Seq<Seq<char>>, u32>, threshold: u32, path: Seq<char>) -> bool {
    if scores.contains_key(path_components(path)) {
        f32_bits_le(threshold, scores[path_components(path)])
    } else {
        true
    }
}

/// The files of `files` that stay shown, in order.
pub open spec fn visible_files(files: Seq<Seq<char>>, scores: Map<Seq<Seq<char>>, u32>, threshold: u32) -> Seq<
    Seq<char>,
>
    decreases files.len(),
{
    if files.len() == 0 {
        seq![]
    } else {
        visible_files(files.drop_last(), scores, threshold) + (if is_visible(
            scores,
            threshold,
            files.last(),
        ) {
            seq![files.last()]
        } else {
            seq![]
        })
    }
}

/// The rows of a directory's files: the files cut into consecutive chunks of `columns`
/// (the last one possibly shorter), each chunk keeping the files that stay shown. A
/// chunk whose files are all hidden still gives an (empty) row.
pub open spec fn grid_rows(
    files: Seq<Seq<char>>,
    columns: nat,
    scores: Map<Seq<Seq<char>>, u32>,
    threshold: u32,
) -> Seq<Seq<Seq<char>>>
    decreases files.len(),
{
    if files.len() == 0 || columns == 0 {
        seq![]
    } else if files.len() <= columns {
        seq![visible_files(files, scores, threshold)]
    } else {
        seq![visible_files(files.take(columns as int), scores, threshold)] + grid_rows(
            files.skip(columns as int),
            columns,
            scores,
            threshold,
        )
    }
}

/// The section of a directory: none where it has no files and no subdirectory shows
/// anything; otherwise its rows under its path as title (no title where it has no
/// files of its own), then the sections of its subdirectories that show anything.
pub open spec fn spec_section(d: DirTree, columns: nat, scores: Map<Seq<Seq<char>>, u32>, threshold: u32) -> Option<
    SectionView,
>
    decreases d, 0nat,
{
    let rows = grid_rows(d.files.deep_view(), columns, scores, threshold);
    let subs = spec_sections(d.sub_dirs@, d.sub_dirs@.len(), columns, scores, threshold);
    if rows.len() == 0 && subs.len() == 0 {
        None
    } else {
        Some(
            SectionView {
                title: if rows.len() > 0 {
                    Some(d.path@)
                } else {
                    None
                },
                rows: rows,
                sub_sections: subs,
            },
        )
    }
}

/// The sections, in order, of those of the first `n` directories of `ds` that show
/// anything.
pub open spec fn spec_sections(
    ds: Seq<DirTree>,
    n: nat,
    columns: nat,
    scores: Map<Seq<Seq<char>>, u32>,
    threshold: u32,
) -> Seq<SectionView>
    decreases ds, n,
{
    if n == 0 || n > ds.len() {
        seq![]
    } else {
        let prev = spec_sections(ds, (n - 1) as nat, columns, scores, threshold);
        match spec_section(ds[n - 1], columns, scores, threshold) {
            Some(s) => prev.push(s),
            None => prev,
        }
    }
}

/// The views of the first `n` sections depend on those sections only.
proof fn lemma_sections_view_prefix(a: Seq<GridSection>, b: Seq<GridSection>, n: nat)
    requires
        n <= a.len(),
        n <= b.len(),
        forall|i: int| 0 <= i < n ==> a[i] == b[i],
    ensures
        sections_view(a, n) == sections_view(b, n),
    decreases n,
{
    if n > 0 {
        lemma_sections_view_prefix(a, b, (n - 1) as nat);
    }
}

/// Whether a file stays shown under `threshold`.
pub fn file_visible(scores: &ImageSimilarity, threshold: u32, path: &String) -> (r: bool)
    ensures
        r == is_visible(scores.scores(), threshold, path@),
{
    match scores.get_score(path) {
        Some(score) => f32_le(threshold, score),
        None => true,
    }
}

/// The shown files of `files[start..end]`, in order.
fn visible_row(files: &Vec<String>, start: usize, end: usize, scores: &ImageSimilarity, threshold: u32) -> (r: Vec<String>)
    requires
        start <= end <= files@.len(),
    ensures
        r.deep_view() == visible_files(files.deep_view().subrange(start as int, end as int), scores.scores(), threshold),
{
    let mut row: Vec<String> = Vec::new();
    let mut k = start;
    let ghost fv = files.deep_view();
    assert(fv.subrange(start as int, start as int) =~= Seq::<Seq<char>>::empty());
    while k < end
        invariant
            start <= k <= end <= files@.len(),
            fv == files.deep_view(),
            row.deep_view() == visible_files(fv.subrange(start as int, k as int), scores.scores(), threshold),
        decreases end - k,
    {
        let ghost before = row.deep_view();
        let ghost sub = fv.subrange(start as int, k + 1);
        assert(sub.drop_last() =~= fv.subrange(start as int, k as int));
        assert(sub.last() == files@[k as int]@);
        if file_visible(scores, threshold, &files[k]) {
            row.push(files[k].clone());
            assert(row.deep_view() =~= before + seq![files@[k as int]@]);
        } else {
            assert(row.deep_view() =~= before + Seq::<Seq<char>>::empty());
        }
        k = k + 1;
    }
    row
}

/// The rows of `files`, cut into chunks of `columns`.
fn rows_of(files: &Vec<String>, columns: usize, scores: &ImageSimilarity, threshold: u32) -> (r: Vec<Vec<String>>)
    requires
        columns >= 1,
    ensures
        r.deep_view() == grid_rows(files.deep_view(), columns as nat, scores.scores(), threshold),
{
    let ghost fv = files.deep_view();
    let ghost goal = grid_rows(fv, columns as nat, scores.scores(), threshold);
    let mut rows: Vec<Vec<String>> = Vec::new();
    let mut i: usize = 0;
    let n = files.len();
    assert(fv.skip(0) =~= fv);
    while i < n
        invariant
            n == files@.len(),
            i <= n,
            columns >= 1,
            fv == files.deep_view(),
            goal == grid_rows(fv, columns as nat, scores.scores(), threshold),
            rows.deep_view() + grid_rows(fv.skip(i as int), columns as nat, scores.scores(), threshold)
                == goal,
        decreases n - i,
    {
        let end = if n - i <= columns {
            n
        } else {
            i + columns
        };
        let row = visible_row(files, i, end, scores, threshold);
        let ghost rest = fv.skip(i as int);
        let ghost before = rows.deep_view();
        rows.push(row);
        assert(rows.deep_view() =~= before.push(row.deep_view()));
        if n - i <= columns {
            assert(rest =~= fv.subrange(i as int, end as int));
            assert(fv.skip(end as int) =~= Seq::<Seq<char>>::empty());
            assert(grid_rows(rest, columns as nat, scores.scores(), threshold) =~= seq![row.deep_view()]);
        } else {
            assert(rest.take(columns as int) =~= fv.subrange(i as int, end as int));
            assert(rest.skip(columns as int) =~= fv.skip(end as int));
        }
        assert(rows.deep_view() + grid_rows(fv.skip(end as int), columns as nat, scores.scores(), threshold)
            =~= goal);
        i = end;
    }
    assert(fv.skip(i as int) =~= Seq::<Seq<char>>::empty());
    assert(rows.deep_view() =~= goal);
    rows
}

/// The grid section of a directory tree, with rows of `columns` files; `None` where
/// nothing of the tree would show.
pub fn layout_section(d: &DirTree, columns: usize, scores: &ImageSimilarity, threshold: u32) -> (r:
    Option<GridSection>)
    requires
        columns >= 1,
    ensures
        opt_section_view(r) == spec_section(*d, columns as nat, scores.scores(), threshold),
    decreases d, 0nat,
{
    let rows = rows_of(&d.files, columns, scores, threshold);
    let subs = layout_sections(&d.sub_dirs, d.sub_dirs.len(), columns, scores, threshold);
    if rows.len() == 0 && subs.len() == 0 {
        None
    } else {
        let title = if rows.len() > 0 {
            Some(d.path.clone())
        } else {
            None
        };
        let g = GridSection { title, rows, sub_sections: subs };
        proof {
            lemma_sections_view_prefix(g.sub_sections@, subs@, subs@.len());
        }
        Some(g)
    }
}

/// The sections of those of the first `n` directories of `ds` that show anything.
fn layout_sections(ds: &Vec<DirTree>, n: usize, columns: usize, scores: &ImageSimilarity, threshold: u32) -> (r:
    Vec<GridSection>)
    requires
        n <= ds@.len(),
        columns >= 1,
    ensures
        sections_view(r@, r@.len()) == spec_sections(ds@, n as nat, columns as nat, scores.scores(), threshold),
    decreases ds@, n,
{
    if n == 0 {
        return Vec::new();
    }
    let mut out = layout_sections(ds, n - 1, columns, scores, threshold);
    let ghost before = out@;
    match layout_section(&ds[n - 1], columns, scores, threshold) {
        Some(g) => {
            out.push(g);
            proof {
                lemma_sections_view_prefix(out@, before, before.len());
            }
        },
        None => {},
    }
    out
}

/// The visible files of two lists joined are those of each, joined.
proof fn lemma_visible_files_append(a: Seq<Seq<char>>, b: Seq<Seq<char>>, scores: Map<Seq<Seq<char>>, u32>, threshold: u32)
    ensures
        visible_files(a + b, scores, threshold) == visible_files(a, scores, threshold) + visible_files(
            b,
            scores,
            threshold,
        ),
    decreases b.len(),
{
    if b.len() == 0 {
        assert(a + b =~= a);
        assert(visible_files(a, scores, threshold) + visible_files(b, scores, threshold) =~= visible_files(a, scores, threshold));
    } else {
        assert((a + b).drop_last() =~= a + b.drop_last());
        assert((a + b).last() == b.last());
        lemma_visible_files_append(a, b.drop_last(), scores, threshold);
        assert(visible_files(a + b, scores, threshold) =~= visible_files(a, scores, threshold)
            + visible_files(b, scores, threshold));
    }
}

/// Filtering never adds files.
proof fn lemma_visible_files_len(files: Seq<Seq<char>>, scores: Map<Seq<Seq<char>>, u32>, threshold: u32)
    ensures
        visible_files(files, scores, threshold).len() <= files.len(),
    decreases files.len(),
{
    if files.len() > 0 {
        lemma_visible_files_len(files.drop_last(), scores, threshold);
    }
}

/// The rows joined one after the other, in order.
pub open spec fn flatten_rows(rows: Seq<Seq<Seq<char>>>) -> Seq<Seq<char>>
    decreases rows.len(),
{
    if rows.len() == 0 {
        seq![]
    } else {
        rows[0] + flatten_rows(rows.drop_first())
    }
}

/// Read row after row, the grid of a directory shows exactly its visible files, in
/// their order.
pub proof fn lemma_rows_show_visible_files(
    files: Seq<Seq<char>>,
    columns: nat,
    scores: Map<Seq<Seq<char>>, u32>,
    threshold: u32,
)
    requires
        columns >= 1,
    ensures
        flatten_rows(grid_rows(files, columns, scores, threshold)) == visible_files(files, scores, threshold),
    decreases files.len(),
{
    let rows = grid_rows(files, columns, scores, threshold);
    if files.len() == 0 {
        assert(visible_files(files, scores, threshold) =~= Seq::<Seq<char>>::empty());
    } else if files.len() <= columns {
        assert(rows.drop_first() =~= Seq::<Seq<Seq<char>>>::empty());
        assert(flatten_rows(rows.drop_first()) =~= Seq::<Seq<char>>::empty());
        assert(rows[0] == visible_files(files, scores, threshold));
        assert(flatten_rows(rows) =~= visible_files(files, scores, threshold));
    } else {
        let head = files.take(columns as int);
        let tail = files.skip(columns as int);
        lemma_rows_show_visible_files(tail, columns, scores, threshold);
        assert(rows.drop_first() =~= grid_rows(tail, columns, scores, threshold));
        assert(head + tail =~= files);
        lemma_visible_files_append(head, tail, scores, threshold);
    }
}

/// No row holds more than `columns` files.
pub proof fn lemma_rows_at_most_columns(
    files: Seq<Seq<char>>,
    columns: nat,
    scores: Map<Seq<Seq<char>>, u32>,
    threshold: u32,
    i: int,
)
    requires
        columns >= 1,
        0 <= i < grid_rows(files, columns, scores, threshold).len(),
    ensures
        grid_rows(files, columns, scores, threshold)[i].len() <= columns,
    decreases files.len(),
{
    if files.len() <= columns {
        lemma_visible_files_len(files, scores, threshold);
    } else if i == 0 {
        lemma_visible_files_len(files.take(columns as int), scores, threshold);
    } else {
        lemma_rows_at_most_columns(files.skip(columns as int), columns, scores, threshold, i - 1);
    }
}

/// A file shown at a similarity level is shown at every lower level.
pub proof fn lemma_lower_level_shows_more(
    scores: Map<Seq<Seq<char>>, u32>,
    p: crate::similarity_quality::SimilarityQuality,
    q: crate::similarity_quality::SimilarityQuality,
    path: Seq<char>,
)
    requires
        p.spec_index() <= q.spec_index(),
        is_visible(scores, q.spec_value_bits(), path),
    ensures
        is_visible(scores, p.spec_value_bits(), path),
{
    if scores.contains_key(path_components(path)) {
        crate::similarity_quality::lemma_lower_level_keeps_more(p, q, scores[path_components(path)]);
    }
}

/// The files a section shows: its rows read one after the other, then the files of its
/// sub-sections in order.
pub open spec fn section_files(g: SectionView) -> Seq<Seq<char>>
    decreases g, 0nat,
{
    flatten_rows(g.rows) + sections_files(g.sub_sections, g.sub_sections.len())
}

/// The files the first `n` sections of `gs` show, in order.
pub open spec fn sections_files(gs: Seq<SectionView>, n: nat) -> Seq<Seq<char>>
    decreases gs, n,
{
    if n == 0 || n > gs.len() {
        seq![]
    } else {
        sections_files(gs, (n - 1) as nat) + section_files(gs[n - 1])
    }
}

/// The files an optional section shows: none for no section.
pub open spec fn opt_section_files(g: Option<SectionView>) -> Seq<Seq<char>> {
    match g {
        Some(s) => section_files(s),
        None => seq![],
    }
}

/// The visible files of a whole tree in scan order: the directory's own, then those of
/// each subdirectory.
pub open spec fn tree_visible_files(d: DirTree, scores: Map<Seq<Seq<char>>, u32>, threshold: u32) -> Seq<
    Seq<char>,
>
    decreases d, 0nat,
{
    visible_files(d.files.deep_view(), scores, threshold) + forest_visible_files(
        d.sub_dirs@,
        d.sub_dirs@.len(),
        scores,
        threshold,
    )
}

/// The visible files of the first `n` trees of `ds`, in order.
pub open spec fn forest_visible_files(
    ds: Seq<DirTree>,
    n: nat,
    scores: Map<Seq<Seq<char>>, u32>,
    threshold: u32,
) -> Seq<Seq<char>>
    decreases ds, n,
{
    if n == 0 || n > ds.len() {
        seq![]
    } else {
        forest_visible_files(ds, (n - 1) as nat, scores, threshold) + tree_visible_files(
            ds[n - 1],
            scores,
            threshold,
        )
    }
}

proof fn lemma_sections_files_prefix(gs: Seq<SectionView>, g: SectionView, n: nat)
    requires
        n <= gs.len(),
    ensures
        sections_files(gs.push(g), n) == sections_files(gs, n),
    decreases n,
{
    if n > 0 {
        lemma_sections_files_prefix(gs, g, (n - 1) as nat);
        assert(gs.push(g)[n - 1] == gs[n - 1]);
    }
}

/// The grid of a directory tree shows every visible file of every directory of the
/// tree, and nothing else, in scan order: reading a section's rows, then its
/// sub-sections, gives the visible files of the whole tree, however deep a file lies
/// and whether or not the directories above it have files of their own.
pub proof fn lemma_grid_shows_tree(
    d: DirTree,
    columns: nat,
    scores: Map<Seq<Seq<char>>, u32>,
    threshold: u32,
)
    requires
        columns >= 1,
    ensures
        opt_section_files(spec_section(d, columns, scores, threshold)) == tree_visible_files(
            d,
            scores,
            threshold,
        ),
    decreases d, 0nat,
{
    let rows = grid_rows(d.files.deep_view(), columns, scores, threshold);
    let subs = spec_sections(d.sub_dirs@, d.sub_dirs@.len(), columns, scores, threshold);
    lemma_rows_show_visible_files(d.files.deep_view(), columns, scores, threshold);
    lemma_grid_shows_forest(d.sub_dirs@, d.sub_dirs@.len(), columns, scores, threshold);
    if rows.len() == 0 && subs.len() == 0 {
        assert(flatten_rows(rows) =~= Seq::<Seq<char>>::empty());
        assert(sections_files(subs, 0) =~= Seq::<Seq<char>>::empty());
        assert(tree_visible_files(d, scores, threshold) =~= Seq::<Seq<char>>::empty());
    }
}

/// The sections of the first `n` trees of `ds` show the visible files of those trees,
/// in order.
pub proof fn lemma_grid_shows_forest(
    ds: Seq<DirTree>,
    n: nat,
    columns: nat,
    scores: Map<Seq<Seq<char>>, u32>,
    threshold: u32,
)
    requires
        columns >= 1,
        n <= ds.len(),
    ensures
        sections_files(
            spec_sections(ds, n, columns, scores, threshold),
            spec_sections(ds, n, columns, scores, threshold).len(),
        ) == forest_visible_files(ds, n, scores, threshold),
    decreases ds, n,
{
    if n > 0 {
        let prev = spec_sections(ds, (n - 1) as nat, columns, scores, threshold);
        lemma_grid_shows_forest(ds, (n - 1) as nat, columns, scores, threshold);
        lemma_grid_shows_tree(ds[n - 1], columns, scores, threshold);
        match spec_section(ds[n - 1], columns, scores, threshold) {
            Some(sec) => {
                lemma_sections_files_prefix(prev, sec, prev.len());
                assert(prev.push(sec)[prev.len() as int] == sec);
            },
            None => {
                assert(forest_visible_files(ds, n, scores, threshold) =~= forest_visible_files(
                    ds,
                    (n - 1) as nat,
                    scores,
                    threshold,
                ));
            },
        }
    } else {
        assert(sections_files(seq![], 0) =~= Seq::<Seq<char>>::empty());
    }
}

/// A directory's files give `ceil(files / columns)` rows, and row `i` holds the visible
/// files among the files `i * columns .. (i + 1) * columns` (the last chunk possibly
/// shorter), in order.
pub proof fn lemma_rows_are_chunks(
    files: Seq<Seq<char>>,
    columns: nat,
    scores: Map<Seq<Seq<char>>, u32>,
    threshold: u32,
    i: int,
)
    requires
        columns >= 1,
    ensures
        grid_rows(files, columns, scores, threshold).len() == (files.len() + columns - 1) / (
        columns as int),
        0 <= i < grid_rows(files, columns, scores, threshold).len() ==> grid_rows(
            files,
            columns,
            scores,
            threshold,
        )[i] == visible_files(
            files.subrange(
                i * columns,
                if (i + 1) * columns <= files.len() {
                    (i + 1) * columns
                } else {
                    files.len() as int
                },
            ),
            scores,
            threshold,
        ),
    decreases files.len(),
{
    let n = files.len() as int;
    let c = columns as int;
    let rows = grid_rows(files, columns, scores, threshold);
    if n == 0 {
        assert((n + c - 1) / c == 0) by (nonlinear_arith)
            requires
                n == 0,
                c >= 1,
        ;
    } else if n <= c {
        assert((n + c - 1) / c == 1) by (nonlinear_arith)
            requires
                1 <= n <= c,
        ;
        if i == 0 {
            assert(files.subrange(0, n) =~= files);
        }
    } else {
        let tail = files.skip(c);
        lemma_rows_are_chunks(tail, columns, scores, threshold, i - 1);
        assert((n + c - 1) / c == 1 + ((n - c) + c - 1) / c) by (nonlinear_arith)
            requires
                n > c,
                c >= 1,
        ;
        if i == 0 {
            assert(files.subrange(0, c) =~= files.take(c));
            assert(rows[0] == visible_files(files.take(c), scores, threshold));
        } else if 0 < i < rows.len() {
            assert(rows[i] == grid_rows(tail, columns, scores, threshold)[i - 1]);
            assert((i - 1) * c + c == i * c) by (nonlinear_arith);
            assert(i * c + c == (i + 1) * c) by (nonlinear_arith);
            let hi = if (i + 1) * c <= n {
                (i + 1) * c
            } else {
                n
            };
            let thi = if i * c <= tail.len() {
                i * c
            } else {
                tail.len() as int
            };
            assert(i * c < n) by (nonlinear_arith)
                requires
                    0 <= i < (n + c - 1) / c,
                    c >= 1,
            ;
            assert(thi + c == hi);
            assert(0 <= (i - 1) * c <= thi) by (nonlinear_arith)
                requires
                    i >= 1,
                    c >= 1,
                    (i - 1) * c + c == i * c,
                    thi == i * c || (thi == n - c && i * c > n - c),
                    i * c < n,
            ;
            assert(tail.subrange((i - 1) * c, thi) =~= files.subrange(i * c, hi));
        }
    }
}

} // verus!
