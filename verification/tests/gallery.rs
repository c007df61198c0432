use video_gallery::components::gallery_settings;
use video_gallery::components::menus;
use video_gallery::components::root_dir_select;
use video_gallery::components::similarity_slider;
use video_gallery::dir_tree::DirTree;
use video_gallery::gallery::{Command, Content, Gallery, Message};
use video_gallery::image_similarity::ImageSimilarity;
use video_gallery::similarity_quality::SimilarityQuality;

fn tree(path: &str, files: &[&str]) -> DirTree {
    DirTree {
        path: path.to_string(),
        files: files.iter().map(|f| f.to_string()).collect(),
        sub_dirs: vec![],
    }
}

fn some_scores() -> ImageSimilarity {
    ImageSimilarity::from_tree(&tree("/v", &["/v/a.mp4"]), &vec![vec![Some(0.9f32.to_bits())]])
}

#[test]
fn starts_with_defaults() {
    let g = Gallery::default();
    assert!(g.dir_node.is_none());
    assert!(g.selected_source_image.is_none());
    assert!(!g.running);
    assert!(g.image_similarity.is_empty());
    assert_eq!(g.thumbnail_size, 160);
    assert_eq!(g.spacing, 10);
    assert_eq!(g.gallery_settings.similarity_slider.similarity_quality, SimilarityQuality::Matched);
    assert!(matches!(g.default_task(), Command::NoTask));
    assert_eq!(g.content(), Content::Blank);
}

#[test]
fn new_gallery_scans_its_root_first() {
    let g = Gallery::new("/videos");
    let d = g.dir_node.as_ref().unwrap();
    assert_eq!(d.path, "/videos");
    assert!(d.files.is_empty() && d.sub_dirs.is_empty());
    assert!(matches!(g.default_task(), Command::LoadImages(p) if p == "/videos"));
    assert_eq!(g.content(), Content::NoImages);
}

#[test]
fn scale_up_and_down_by_twenty() {
    let mut g = Gallery::default();
    assert!(matches!(g.update(Message::MenusMessage(menus::Message::ScaleUp)), Command::NoTask));
    assert_eq!(g.thumbnail_size, 180);
    g.update(Message::MenusMessage(menus::Message::ScaleDown));
    assert_eq!(g.thumbnail_size, 160);
}

#[test]
fn thumbnail_size_stays_between_limits() {
    let mut g = Gallery::default();
    for _ in 0..100 {
        g.update(Message::MenusMessage(menus::Message::ScaleUp));
    }
    assert_eq!(g.thumbnail_size, 620);
    for _ in 0..100 {
        g.update(Message::MenusMessage(menus::Message::ScaleDown));
    }
    assert_eq!(g.thumbnail_size, 20);
}

#[test]
fn quit_asks_to_exit() {
    let mut g = Gallery::default();
    assert!(matches!(g.update(Message::MenusMessage(menus::Message::Quit)), Command::Exit));
    assert_eq!(g.thumbnail_size, 160);
}

#[test]
fn loaded_tree_without_source_asks_nothing() {
    let mut g = Gallery::default();
    let c = g.update(Message::ImagesLoaded(tree("/v", &["/v/a.mp4"])));
    assert!(matches!(c, Command::NoTask));
    assert_eq!(g.dir_node.as_ref().unwrap().files, vec!["/v/a.mp4".to_string()]);
    assert_eq!(g.content(), Content::Grid);
}

#[test]
fn selecting_an_image_starts_scoring() {
    let mut g = Gallery::default();
    g.update(Message::ImagesLoaded(tree("/v", &["/v/a.mp4"])));
    let c = g.update(Message::ImageSelect("/v/a.mp4".to_string()));
    assert!(matches!(c, Command::ComputeSimilarity(p) if p == "/v/a.mp4"));
    assert!(g.running);
    assert_eq!(g.source_label(), "/v/a.mp4 (calculating...)");
    // a second choice while scoring runs is ignored
    let c = g.update(Message::ImageSelect("/v/b.mp4".to_string()));
    assert!(matches!(c, Command::NoTask));
    assert_eq!(g.selected_source_image.as_deref(), Some("/v/a.mp4"));
    // scores arrive
    let c = g.update(Message::ImageSimilarityCompleted(some_scores()));
    assert!(matches!(c, Command::NoTask));
    assert!(!g.running);
    assert!(g.shows_settings());
    assert_eq!(g.source_label(), "/v/a.mp4");
}

#[test]
fn selecting_without_a_tree_marks_running_but_asks_nothing() {
    let mut g = Gallery::default();
    let c = g.update(Message::ImageSelect("/v/a.mp4".to_string()));
    assert!(matches!(c, Command::NoTask));
    assert!(g.running);
}

#[test]
fn new_scan_with_a_source_clears_and_rescores() {
    let mut g = Gallery::default();
    g.update(Message::ImagesLoaded(tree("/v", &["/v/a.mp4"])));
    g.update(Message::ImageSelect("/v/a.mp4".to_string()));
    g.update(Message::ImageSimilarityCompleted(some_scores()));
    let c = g.update(Message::ImagesLoaded(tree("/v", &["/v/a.mp4", "/v/b.mp4"])));
    assert!(matches!(c, Command::ComputeSimilarity(p) if p == "/v/a.mp4"));
    assert!(g.image_similarity.is_empty());
    assert!(!g.shows_settings());
}

#[test]
fn slider_changes_the_level() {
    let mut g = Gallery::default();
    let c = g.update(Message::GallerySettingsMessage(
        gallery_settings::Message::SimilaritySliderMessage(similarity_slider::Message::ValueChanged(4)),
    ));
    assert!(matches!(c, Command::NoTask));
    assert_eq!(g.gallery_settings.similarity_slider.similarity_quality, SimilarityQuality::BestMatched);
    assert_eq!(g.gallery_settings.similarity_quality(), 0.89f32.to_bits());
}

#[test]
fn opening_the_folder_dialog_is_passed_on() {
    let mut g = Gallery::default();
    let c = g.update(Message::RootDirSelectMessage(root_dir_select::Message::DialogOpen));
    assert!(matches!(c, Command::RootDirSelect(root_dir_select::Command::OpenFolderDialog)));
}

#[test]
fn cancelled_dialog_changes_nothing_else() {
    let mut g = Gallery::new("/v");
    let c = g.update(Message::RootDirSelectMessage(root_dir_select::Message::DialogClose(None)));
    assert!(matches!(c, Command::RootDirSelect(root_dir_select::Command::NoTask)));
    assert_eq!(g.dir_node.as_ref().unwrap().path, "/v");
    assert!(g.root_dir_select.selected_path.is_none());
}

#[test]
fn chosen_folder_replaces_the_tree() {
    let mut g = Gallery::default();
    g.update(Message::ImagesLoaded(tree("/old", &["/old/a.mp4"])));
    g.update(Message::ImageSelect("/old/a.mp4".to_string()));
    g.update(Message::ImageSimilarityCompleted(some_scores()));
    let c = g.update(Message::RootDirSelectMessage(root_dir_select::Message::DialogClose(Some(
        "/new".to_string(),
    ))));
    assert!(matches!(c, Command::SaveRootAndLoad(p) if p == "/new"));
    let d = g.dir_node.as_ref().unwrap();
    assert_eq!(d.path, "/new");
    assert!(d.files.is_empty());
    assert!(g.selected_source_image.is_none());
    assert!(g.image_similarity.is_empty());
    assert_eq!(g.root_dir_select.selected_path.as_deref(), Some("/new"));
    assert_eq!(g.source_label(), "");
}

#[test]
fn grid_uses_at_least_one_column() {
    let mut g = Gallery::default();
    assert!(g.view_grid(3).is_none());
    g.update(Message::ImagesLoaded(tree("/v", &["/v/a.mp4", "/v/b.mp4"])));
    let grid = g.view_grid(0).unwrap();
    assert_eq!(grid.rows.len(), 2);
    let grid = g.view_grid(5).unwrap();
    assert_eq!(grid.rows.len(), 1);
    assert_eq!(grid.title.as_deref(), Some("/v"));
}

#[test]
fn grid_filters_by_the_chosen_level() {
    let mut g = Gallery::default();
    g.update(Message::ImagesLoaded(tree("/v", &["/v/a.mp4", "/v/b.mp4"])));
    g.update(Message::ImageSimilarityCompleted(some_scores()));
    // b has no score and stays; a scores 0.9 and stays at every level
    let grid = g.view_grid(4).unwrap();
    assert_eq!(grid.rows[0], vec!["/v/a.mp4".to_string(), "/v/b.mp4".to_string()]);
}
