use video_gallery::dir_tree::DirTree;
use video_gallery::grid::{file_visible, layout_section, GridSection};
use video_gallery::image_similarity::ImageSimilarity;
use video_gallery::similarity_quality::SimilarityQuality;

fn dir(path: &str, files: &[&str], sub_dirs: Vec<DirTree>) -> DirTree {
    DirTree {
        path: path.to_string(),
        files: files.iter().map(|f| f.to_string()).collect(),
        sub_dirs,
    }
}

fn scores(pairs: &[(&str, f32)]) -> ImageSimilarity {
    let paths: Vec<&str> = pairs.iter().map(|(p, _)| *p).collect();
    let scored = dir("/", &paths, vec![]);
    let outcomes = vec![pairs.iter().map(|(_, s)| Some(s.to_bits())).collect()];
    ImageSimilarity::from_tree(&scored, &outcomes)
}

fn rows(g: &GridSection) -> Vec<Vec<&str>> {
    g.rows.iter().map(|r| r.iter().map(|s| s.as_str()).collect()).collect()
}

#[test]
fn files_are_cut_into_rows_of_columns() {
    let d = dir("/v", &["a", "b", "c", "d", "e"], vec![]);
    let g = layout_section(&d, 2, &ImageSimilarity::new(), 0).unwrap();
    assert_eq!(g.title.as_deref(), Some("/v"));
    assert_eq!(rows(&g), vec![vec!["a", "b"], vec!["c", "d"], vec!["e"]]);
    assert!(g.sub_sections.is_empty());
}

#[test]
fn hidden_files_leave_their_row_shorter_or_empty() {
    let d = dir("/v", &["a", "b", "c"], vec![]);
    let s = scores(&[("a", 0.1), ("b", 0.2), ("c", 0.9)]);
    let threshold = SimilarityQuality::Matched.value_bits();
    let g = layout_section(&d, 2, &s, threshold).unwrap();
    assert_eq!(rows(&g), vec![Vec::<&str>::new(), vec!["c"]]);
}

#[test]
fn files_without_score_stay_shown() {
    let s = scores(&[("a", 0.1)]);
    let threshold = SimilarityQuality::BestMatched.value_bits();
    assert!(!file_visible(&s, threshold, &"a".to_string()));
    assert!(file_visible(&s, threshold, &"z".to_string()));
}

#[test]
fn nan_scores_are_hidden_even_at_all() {
    let s = scores(&[("a", f32::NAN)]);
    assert!(!file_visible(&s, SimilarityQuality::ALL.value_bits(), &"a".to_string()));
}

#[test]
fn empty_tree_shows_nothing() {
    let d = dir("/v", &[], vec![dir("/v/s", &[], vec![])]);
    assert!(layout_section(&d, 3, &ImageSimilarity::new(), 0).is_none());
}

#[test]
fn folder_with_only_subfolders_has_no_title() {
    let d = dir("/v", &[], vec![dir("/v/empty", &[], vec![]), dir("/v/s", &["x"], vec![])]);
    let g = layout_section(&d, 3, &ImageSimilarity::new(), 0).unwrap();
    assert_eq!(g.title, None);
    assert!(g.rows.is_empty());
    assert_eq!(g.sub_sections.len(), 1);
    assert_eq!(g.sub_sections[0].title.as_deref(), Some("/v/s"));
    assert_eq!(rows(&g.sub_sections[0]), vec![vec!["x"]]);
}

#[test]
fn row_count_does_not_depend_on_the_filter() {
    let d = dir("/v", &["a", "b", "c", "d"], vec![]);
    let s = scores(&[("a", 0.0), ("b", 0.0), ("c", 0.0), ("d", 0.0)]);
    let g = layout_section(&d, 3, &s, SimilarityQuality::BestMatched.value_bits()).unwrap();
    assert_eq!(g.rows.len(), 2);
    assert!(g.rows.iter().all(|r| r.is_empty()));
}

#[test]
fn lower_level_shows_at_least_what_a_higher_one_shows() {
    let d = dir("/v", &["a", "b", "c", "d"], vec![]);
    let s = scores(&[("a", 0.66), ("b", 0.75), ("c", 0.95), ("d", -0.5)]);
    let mut previous = usize::MAX;
    for i in 0..SimilarityQuality::len() {
        let q = SimilarityQuality::from_index(i);
        let g = layout_section(&d, 10, &s, q.value_bits()).unwrap();
        let shown = g.rows.iter().map(|r| r.len()).sum::<usize>();
        assert!(shown <= previous);
        previous = shown;
    }
    assert_eq!(previous, 1);
}
