use video_gallery::components::gallery_settings::{self, GallerySettings};
use video_gallery::components::model_loader::{self, ModelLoader};
use video_gallery::components::root_dir_select::{self, RootDirSelect};
use video_gallery::components::similarity_slider::{self, SimilaritySlider};
use video_gallery::dir_tree::DirTree;
use video_gallery::settings::Settings;
use video_gallery::similarity_quality::SimilarityQuality;

#[test]
fn model_loader_shows_loading_then_clears() {
    let mut m = ModelLoader::default();
    assert_eq!(m.message(), "");
    assert!(matches!(m.update(model_loader::Message::LoadStart), model_loader::Command::DownloadModel));
    assert_eq!(m.message(), "loading...");
    let c = m.update(model_loader::Message::Loaded(Ok("model.safetensors".to_string())));
    assert!(matches!(c, model_loader::Command::NoTask));
    assert_eq!(m.message(), "");
    m.update(model_loader::Message::LoadStart);
    m.update(model_loader::Message::Loaded(Err("network down".to_string())));
    assert_eq!(m.message(), "");
}

#[test]
fn root_dir_select_records_the_choice() {
    let mut r = RootDirSelect::default();
    assert!(matches!(r.update(root_dir_select::Message::DialogOpen), root_dir_select::Command::OpenFolderDialog));
    assert!(r.selected_path.is_none());
    let c = r.update(root_dir_select::Message::DialogClose(Some("/videos".to_string())));
    assert!(matches!(c, root_dir_select::Command::NoTask));
    assert_eq!(r.selected_path.as_deref(), Some("/videos"));
    r.update(root_dir_select::Message::DialogClose(None));
    assert!(r.selected_path.is_none());
}

#[test]
fn slider_moves_to_the_chosen_level() {
    let mut s = SimilaritySlider::default();
    assert_eq!(s.similarity_quality, SimilarityQuality::Matched);
    s.update(similarity_slider::Message::ValueChanged(0));
    assert_eq!(s.similarity_quality, SimilarityQuality::ALL);
    s.update(similarity_slider::Message::ValueChanged(1));
    assert_eq!(s.similarity_quality, SimilarityQuality::LessMatched);
}

#[test]
fn settings_row_reports_threshold_bits() {
    let mut g = GallerySettings::default();
    assert_eq!(f32::from_bits(g.similarity_quality()), 0.73);
    g.update(gallery_settings::Message::SimilaritySliderMessage(
        similarity_slider::Message::ValueChanged(1),
    ));
    assert_eq!(f32::from_bits(g.similarity_quality()), 0.65);
    g.update(gallery_settings::Message::SimilaritySliderMessage(
        similarity_slider::Message::ValueChanged(0),
    ));
    assert_eq!(f32::from_bits(g.similarity_quality()), 0.0);
}

#[test]
fn saved_settings_hold_the_root() {
    assert_eq!(Settings::default().root_dir_path, "");
    assert_eq!(Settings::new("/v".to_string()).root_dir_path, "/v");
}

#[test]
fn dir_tree_emptiness() {
    let d = DirTree::with_path("/v".to_string());
    assert!(d.is_empty());
    let d = DirTree { path: "/v".to_string(), sub_dirs: vec![], files: vec!["/v/a".to_string()] };
    assert!(!d.is_empty());
}
