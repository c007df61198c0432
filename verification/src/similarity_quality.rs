//! The levels of the similarity filter offered by the gallery's slider.
use vstd::prelude::*;
use crate::score::{f32_bits_le, order_key, is_nan_bits};

verus! {

/// How closely a file must match the selected source image to stay shown.
#[derive(Debug, Clone, Copy, PartialEq, Eq, Structural)]
#[allow(non_camel_case_types)]
pub enum SimilarityQuality {
    ALL,
    LessMatched,
    Matched,
    BetterMatched,
    BestMatched,
}

/// Number of levels.
pub const QUALITY_COUNT: u8 = 5;

impl SimilarityQuality {
    /// Position of the level on the slider, from 0 (`ALL`) to 4 (`BestMatched`).
    pub open spec fn spec_index(self) -> u8 {
        match self {
            SimilarityQuality::ALL => 0,
            SimilarityQuality::LessMatched => 1,
            SimilarityQuality::Matched => 2,
            SimilarityQuality::BetterMatched => 3,
            SimilarityQuality::BestMatched => 4,
        }
    }

    /// The level at slider position `i` (below 5).
    pub open spec fn spec_from_index(i: u8) -> SimilarityQuality {
        if i == 0 {
            SimilarityQuality::ALL
        } else if i == 1 {
            SimilarityQuality::LessMatched
        } else if i == 2 {
            SimilarityQuality::Matched
        } else if i == 3 {
            SimilarityQuality::BetterMatched
        } else {
            SimilarityQuality::BestMatched
        }
    }

    /// The least score a file needs at this level, as binary32 bits:
    /// 0.0, 0.65, 0.73, 0.81 and 0.89.
    pub open spec fn spec_value_bits(self) -> u32 {
        match self {
            SimilarityQuality::ALL => 0x0000_0000,
            SimilarityQuality::LessMatched => 0x3f26_6666,
            SimilarityQuality::Matched => 0x3f3a_e148,
            SimilarityQuality::BetterMatched => 0x3f4f_5c29,
            SimilarityQuality::BestMatched => 0x3f63_d70a,
        }
    }

    /// Slider position of this level.
    pub fn index(&self) -> (r: u8)
        ensures
            r == self.spec_index(),
            r < QUALITY_COUNT,
    {
        match self {
            SimilarityQuality::ALL => 0,
            SimilarityQuality::LessMatched => 1,
            SimilarityQuality::Matched => 2,
            SimilarityQuality::BetterMatched => 3,
            SimilarityQuality::BestMatched => 4,
        }
    }

    /// The level at slider position `i`.
    pub fn from_index(i: u8) -> (r: Self)
        requires
            i < QUALITY_COUNT,
        ensures
            r == Self::spec_from_index(i),
            r.spec_index() == i,
    {
        if i == 0 {
            SimilarityQuality::ALL
        } else if i == 1 {
            SimilarityQuality::LessMatched
        } else if i == 2 {
            SimilarityQuality::Matched
        } else if i == 3 {
            SimilarityQuality::BetterMatched
        } else {
            SimilarityQuality::BestMatched
        }
    }

    /// Number of levels.
    pub fn len() -> (r: u8)
        ensures
            r == QUALITY_COUNT,
    {
        QUALITY_COUNT
    }

    /// The least score a file needs at this level, as the bits of its `f32` value.
    pub fn value_bits(&self) -> (r: u32)
        ensures
            r == self.spec_value_bits(),
    {
        match self {
            SimilarityQuality::ALL => 0x0000_0000,
            SimilarityQuality::LessMatched => 0x3f26_6666,
            SimilarityQuality::Matched => 0x3f3a_e148,
            SimilarityQuality::BetterMatched => 0x3f4f_5c29,
            SimilarityQuality::BestMatched => 0x3f63_d70a,
        }
    }

    /// Name of the level as the slider shows it.
    pub fn label(&self) -> (r: &'static str)
        ensures
            r@ == (match self {
                SimilarityQuality::ALL => "ALL"@,
                SimilarityQuality::LessMatched => "Less Matched"@,
                SimilarityQuality::Matched => "Matched"@,
                SimilarityQuality::BetterMatched => "Better Matched"@,
                SimilarityQuality::BestMatched => "Best Matched"@,
            }),
    {
        match self {
            SimilarityQuality::ALL => "ALL",
            SimilarityQuality::LessMatched => "Less Matched",
            SimilarityQuality::Matched => "Matched",
            SimilarityQuality::BetterMatched => "Better Matched",
            SimilarityQuality::BestMatched => "Best Matched",
        }
    }
}

impl Default for SimilarityQuality {
    /// The gallery starts at `Matched`.
    fn default() -> (r: Self)
        ensures
            r == SimilarityQuality::Matched,
    {
        SimilarityQuality::Matched
    }
}

/// Reading a level's slider position and turning it back into a level gives the
/// same level.
pub proof fn lemma_index_round_trip(q: SimilarityQuality)
    ensures
        q.spec_index() < QUALITY_COUNT,
        SimilarityQuality::spec_from_index(q.spec_index()) == q,
{
}

/// Turning a slider position into a level and reading its position gives the same
/// position.
pub proof fn lemma_from_index_round_trip(i: u8)
    requires
        i < QUALITY_COUNT,
    ensures
        SimilarityQuality::spec_from_index(i).spec_index() == i,
{
}

/// Every threshold is a number, and the thresholds rise strictly with the slider
/// position: a higher level asks for a strictly higher score.
pub proof fn lemma_thresholds_increase(p: SimilarityQuality, q: SimilarityQuality)
    requires
        p.spec_index() < q.spec_index(),
    ensures
        !is_nan_bits(p.spec_value_bits()),
        !is_nan_bits(q.spec_value_bits()),
        order_key(p.spec_value_bits()) < order_key(q.spec_value_bits()),
        f32_bits_le(p.spec_value_bits(), q.spec_value_bits()),
        !f32_bits_le(q.spec_value_bits(), p.spec_value_bits()),
{
}

/// A score that meets a level's threshold meets the threshold of every lower level.
pub proof fn lemma_lower_level_keeps_more(p: SimilarityQuality, q: SimilarityQuality, score: u32)
    requires
        p.spec_index() <= q.spec_index(),
        f32_bits_le(q.spec_value_bits(), score),
    ensures
        f32_bits_le(p.spec_value_bits(), score),
{
    if p.spec_index() < q.spec_index() {
        lemma_thresholds_increase(p, q);
    } else {
        assert(p == q);
    }
}

} // verus!
