//! The settings row shown above the grid once scores exist.
use vstd::prelude::*;
use crate::components::similarity_slider::{self, SimilaritySlider};
use crate::similarity_quality::SimilarityQuality;

verus! {

/// What the settings row sends.
#[derive(Debug, Clone, Copy, PartialEq, Eq, Structural)]
pub enum Message {
    SimilaritySliderMessage(similarity_slider::Message),
}

/// A message the settings row can send.
pub open spec fn valid_message(m: Message) -> bool {
    match m {
        Message::SimilaritySliderMessage(s) => similarity_slider::valid_message(s),
    }
}

/// The settings row's state.
#[derive(Debug, Clone, Copy)]
pub struct GallerySettings {
    pub similarity_slider: SimilaritySlider,
}

impl GallerySettings {
    /// Settings at their defaults.
    pub fn new() -> (r: GallerySettings)
        ensures
            r.similarity_slider.similarity_quality == SimilarityQuality::Matched,
    {
        GallerySettings { similarity_slider: SimilaritySlider::new() }
    }

    /// The least score a file needs to stay shown, as the bits of its `f32` value.
    pub fn similarity_quality(&self) -> (r: u32)
        ensures
            r == self.similarity_slider.similarity_quality.spec_value_bits(),
    {
        self.similarity_slider.similarity_quality.value_bits()
    }

    /// Hands the message on to the slider.
    pub fn update(&mut self, message: Message)
        requires
            valid_message(message),
        ensures
            match message {
                Message::SimilaritySliderMessage(similarity_slider::Message::ValueChanged(v)) =>
                    final(self).similarity_slider.similarity_quality
                    == SimilarityQuality::spec_from_index(v),
            },
    {
        match message {
            Message::SimilaritySliderMessage(message) => {
                self.similarity_slider.update(message);
            },
        }
    }
}

impl Default for GallerySettings {
    /// Settings at their defaults.
    fn default() -> (r: Self)
        ensures
            r.similarity_slider.similarity_quality == SimilarityQuality::Matched,
    {
        GallerySettings::new()
    }
}

} // verus!
