use vstd::prelude::*;

pub mod annexb;
pub mod components;
pub mod settings;
pub mod dir_tree;
pub mod frame;
pub mod gallery;
pub mod grid;
pub mod image_similarity;
pub mod path_key;
pub mod sample_table;
pub mod score;
pub mod similarity_quality;

verus! {
} // verus!
