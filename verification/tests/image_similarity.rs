use video_gallery::dir_tree::DirTree;
use video_gallery::image_similarity::{all_files_scored, score_of_source_itself, ImageSimilarity};
use video_gallery::score::SCORE_ONE_BITS;

fn dir(path: &str, files: &[&str], sub_dirs: Vec<DirTree>) -> DirTree {
    DirTree {
        path: path.to_string(),
        files: files.iter().map(|f| f.to_string()).collect(),
        sub_dirs,
    }
}

fn outcomes(groups: &[&[Option<f32>]]) -> Vec<Vec<Option<u32>>> {
    groups.iter().map(|g| g.iter().map(|s| s.map(f32::to_bits)).collect()).collect()
}

fn score_of(s: &ImageSimilarity, path: &str) -> Option<f32> {
    s.get_score(&path.to_string()).map(f32::from_bits)
}

#[test]
fn empty_scores() {
    let s = ImageSimilarity::new();
    assert!(s.is_empty());
    assert_eq!(score_of(&s, "/a.mp4"), None);
    assert!(ImageSimilarity::default().is_empty());
}

#[test]
fn groups_follow_the_tree() {
    let tree = dir(
        "/v",
        &["/v/a.mp4", "/v/b.mp4"],
        vec![dir("/v/s", &["/v/s/c.mp4"], vec![dir("/v/s/t", &[], vec![])]), dir("/v/u", &["/v/u/d.mp4"], vec![])],
    );
    let groups = tree.file_groups();
    assert_eq!(
        groups,
        vec![
            vec!["/v/a.mp4".to_string(), "/v/b.mp4".to_string()],
            vec!["/v/s/c.mp4".to_string()],
            vec![],
            vec!["/v/u/d.mp4".to_string()],
        ]
    );
}

#[test]
fn scores_of_a_fully_scored_tree() {
    let tree = dir("/v", &["/v/a.mp4", "/v/b.mp4"], vec![dir("/v/s", &["/v/s/c.mp4"], vec![])]);
    let s = ImageSimilarity::from_tree(&tree, &outcomes(&[&[Some(0.5), Some(1.0)], &[Some(0.75)]]));
    assert!(!s.is_empty());
    assert_eq!(score_of(&s, "/v/a.mp4"), Some(0.5));
    assert_eq!(score_of(&s, "/v/b.mp4"), Some(1.0));
    assert_eq!(score_of(&s, "/v/s/c.mp4"), Some(0.75));
    assert_eq!(score_of(&s, "/v/d.mp4"), None);
}

#[test]
fn one_failure_drops_its_directory_only() {
    let tree = dir("/v", &["/v/a.mp4", "/v/bad.mp4"], vec![dir("/v/s", &["/v/s/c.mp4"], vec![])]);
    let s = ImageSimilarity::from_tree(&tree, &outcomes(&[&[Some(0.5), None], &[Some(0.75)]]));
    assert_eq!(score_of(&s, "/v/a.mp4"), None);
    assert_eq!(score_of(&s, "/v/bad.mp4"), None);
    assert_eq!(score_of(&s, "/v/s/c.mp4"), Some(0.75));
}

#[test]
fn all_failing_gives_no_scores() {
    let tree = dir("/v", &["/v/bad.mp4"], vec![]);
    assert!(ImageSimilarity::from_tree(&tree, &outcomes(&[&[None]])).is_empty());
}

#[test]
fn later_score_for_a_path_wins() {
    let tree = dir("/v", &["/v/a.mp4"], vec![dir("/v/s", &["/v/a.mp4"], vec![])]);
    let s = ImageSimilarity::from_tree(&tree, &outcomes(&[&[Some(0.5)], &[Some(0.25)]]));
    assert_eq!(score_of(&s, "/v/a.mp4"), Some(0.25));
}

#[test]
fn source_scores_one_against_itself() {
    let src = "/v/a.mp4".to_string();
    assert_eq!(score_of_source_itself(&src, &src.clone()), Some(SCORE_ONE_BITS));
    assert_eq!(score_of_source_itself(&src, &"/v/b.mp4".to_string()), None);
}

#[test]
fn scoring_goes_on_only_while_nothing_failed() {
    assert!(all_files_scored(&vec![]));
    assert!(all_files_scored(&vec![Some(1), Some(2)]));
    assert!(!all_files_scored(&vec![Some(1), None]));
}

#[test]
fn paths_are_compared_by_components() {
    let tree = dir("/v", &["/v/a.mp4"], vec![]);
    let s = ImageSimilarity::from_tree(&tree, &outcomes(&[&[Some(0.5)]]));
    assert_eq!(score_of(&s, "/v/./a.mp4"), Some(0.5));
    assert_eq!(score_of(&s, "//v//a.mp4"), Some(0.5));
    assert_eq!(score_of(&s, "/v/b/../a.mp4"), None);
    let src = "/v/a.mp4".to_string();
    assert_eq!(score_of_source_itself(&src, &"/v/./a.mp4".to_string()), Some(SCORE_ONE_BITS));
}
