//! The slider that picks the similarity level.
use vstd::prelude::*;
use crate::similarity_quality::{SimilarityQuality, QUALITY_COUNT};

verus! {

/// What the slider sends: the slider position it was moved to.
#[derive(Debug, Clone, Copy, PartialEq, Eq, Structural)]
pub enum Message {
    ValueChanged(u8),
}

/// A message the slider can send: its positions are those of the levels.
pub open spec fn valid_message(m: Message) -> bool {
    match m {
        Message::ValueChanged(v) => v < QUALITY_COUNT,
    }
}

/// The slider's state: the level it shows.
#[derive(Debug, Clone, Copy)]
pub struct SimilaritySlider {
    pub similarity_quality: SimilarityQuality,
}

impl SimilaritySlider {
    /// The slider at the default level (`Matched`).
    pub fn new() -> (r: SimilaritySlider)
        ensures
            r.similarity_quality == SimilarityQuality::Matched,
    {
        SimilaritySlider { similarity_quality: SimilarityQuality::default() }
    }

    /// Moves the slider to the level at the sent position.
    pub fn update(&mut self, message: Message)
        requires
            valid_message(message),
        ensures
            match message {
                Message::ValueChanged(v) => final(self).similarity_quality
                    == SimilarityQuality::spec_from_index(v),
            },
    {
        match message {
            Message::ValueChanged(value) => {
                self.similarity_quality = SimilarityQuality::from_index(value);
            },
        }
    }
}

impl Default for SimilaritySlider {
    /// The slider at the default level (`Matched`).
    fn default() -> (r: Self)
        ensures
            r.similarity_quality == SimilarityQuality::Matched,
    {
        SimilaritySlider::new()
    }
}

} // verus!
