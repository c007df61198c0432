//! The small stateful parts of the gallery window, each with its message type and
//! the work it asks the application to do.
pub mod gallery_settings;
pub mod menus;
pub mod model_loader;
pub mod root_dir_select;
pub mod similarity_slider;
