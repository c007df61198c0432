use video_gallery::similarity_quality::SimilarityQuality;

const LEVELS: [SimilarityQuality; 5] = [
    SimilarityQuality::ALL,
    SimilarityQuality::LessMatched,
    SimilarityQuality::Matched,
    SimilarityQuality::BetterMatched,
    SimilarityQuality::BestMatched,
];

#[test]
fn index_and_from_index_round_trip() {
    for (i, q) in LEVELS.iter().enumerate() {
        assert_eq!(q.index() as usize, i);
        assert_eq!(SimilarityQuality::from_index(i as u8), *q);
    }
}

#[test]
fn there_are_five_levels() {
    assert_eq!(SimilarityQuality::len(), 5);
}

#[test]
fn thresholds_are_the_levels_scores() {
    let expected = [0.0f32, 0.65, 0.73, 0.81, 0.89];
    for (q, v) in LEVELS.iter().zip(expected) {
        assert_eq!(f32::from_bits(q.value_bits()), v);
    }
}

#[test]
fn thresholds_rise_with_level() {
    for i in 1..LEVELS.len() {
        assert!(f32::from_bits(LEVELS[i - 1].value_bits()) < f32::from_bits(LEVELS[i].value_bits()));
    }
}

#[test]
fn labels() {
    let expected = ["ALL", "Less Matched", "Matched", "Better Matched", "Best Matched"];
    for (q, l) in LEVELS.iter().zip(expected) {
        assert_eq!(q.label(), l);
    }
}

#[test]
fn default_is_matched() {
    assert_eq!(SimilarityQuality::default(), SimilarityQuality::Matched);
}
