use std::path::Path;
use video_gallery::path_key::{components, paths_equal};

const PATHS: [&str; 22] = [
    "", "/", "//", "a", "a/b", "a/./b", "a//b", "a/b/", "a/b/.", "./a", ".", "./", ".a",
    "/a/b", "//a/b", "/./a", "a/../b", "a/..", "../a", "..", "a/.b", "/a/b/../",
];

#[test]
fn equality_matches_std_path() {
    for a in PATHS {
        for b in PATHS {
            assert_eq!(
                paths_equal(&a.to_string(), &b.to_string()),
                Path::new(a) == Path::new(b),
                "{:?} == {:?}",
                a,
                b
            );
        }
    }
}

#[test]
fn components_of_a_messy_path() {
    let c = components(&"/usr//local/./bin/".to_string());
    let expected: Vec<Vec<char>> = vec![
        vec!['/'],
        "usr".chars().collect(),
        "local".chars().collect(),
        "bin".chars().collect(),
    ];
    assert_eq!(c, expected);
    let c = components(&"./x".to_string());
    assert_eq!(c, vec![vec!['.'], vec!['x']]);
}
