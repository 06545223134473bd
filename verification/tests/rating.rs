use movie_log::rating::{get_rating, Ratings};
use movie_log::similarity::{best_match, compare, similarity_from_blocks, Similarity};

fn table(entries: &[(&str, &str)]) -> Ratings {
    let mut ratings = Ratings::new();
    for (title, rating) in entries {
        ratings.insert(String::from(*title), String::from(*rating));
    }
    ratings
}

fn score(matched: usize, total: usize) -> Option<Similarity> {
    Some(Similarity { matched, total })
}

#[test]
fn similarity_counts_matching_bytes() {
    assert_eq!(compare("abcd", "abcdef"), score(4, 10));
    assert_eq!(compare("abc", "abcdef"), score(3, 9));
    assert_eq!(compare("Blade Runner 2049", "Blade Runner"), score(12, 29));
    assert_eq!(compare("The Matrix", "The Matrix"), score(10, 20));
    assert_eq!(compare("Dune - Part Two", "Dune Part Two"), score(13, 28));
    assert_eq!(compare("Heat", "Cold"), score(0, 8));
    assert_eq!(compare("", ""), score(0, 0));
    assert_eq!(compare("", "abc"), score(0, 3));
}

#[test]
fn similarity_is_taken_of_bytes() {
    // "é" is two bytes, of which none is "e"
    assert_eq!(compare("Amélie", "Amelie"), score(5, 13));
}

#[test]
fn similarity_adds_the_blocks() {
    assert_eq!(similarity_from_blocks(&vec![4, 9, 0], 15, 13), score(13, 28));
    assert_eq!(similarity_from_blocks(&vec![], 0, 0), score(0, 0));
    assert_eq!(similarity_from_blocks(&vec![0], 3, 4), score(0, 7));
    assert_eq!(similarity_from_blocks(&vec![usize::MAX], 1, 1), score(usize::MAX, 2));
}

#[test]
fn similarity_beyond_a_machine_word_is_none() {
    assert_eq!(similarity_from_blocks(&vec![usize::MAX, 1], 1, 1), None);
    assert_eq!(similarity_from_blocks(&vec![1], usize::MAX, 1), None);
    assert_eq!(similarity_from_blocks(&vec![usize::MAX, usize::MAX, usize::MAX], 0, 0), None);
}

#[test]
fn a_score_of_exactly_four_fifths_counts() {
    assert!(Similarity { matched: 4, total: 10 }.close());
    assert!(Similarity { matched: 2, total: 5 }.close());
    assert!(Similarity { matched: 400, total: 1000 }.close());
    assert!(!Similarity { matched: 399, total: 1000 }.close());
    assert!(!Similarity { matched: 3, total: 9 }.close());
    assert!(!Similarity { matched: 0, total: 1 }.close());
    assert!(Similarity { matched: 10, total: 20 }.close());
    // two empty texts are alike
    assert!(Similarity { matched: 0, total: 0 }.close());
    assert!(Similarity { matched: usize::MAX, total: usize::MAX }.close());
}

#[test]
fn scores_are_compared_as_fractions() {
    let half = Similarity { matched: 1, total: 4 };
    let same_half = Similarity { matched: 5, total: 20 };
    let more = Similarity { matched: 3, total: 8 };
    let one = Similarity { matched: 0, total: 0 };
    let full = Similarity { matched: 7, total: 14 };
    assert!(more.above(&half));
    assert!(!half.above(&more));
    assert!(!half.above(&same_half));
    assert!(!same_half.above(&half));
    assert!(one.above(&more));
    assert!(!more.above(&one));
    assert!(!one.above(&full));
    assert!(!full.above(&one));
    assert!(!one.above(&one));
    let huge = Similarity { matched: usize::MAX, total: usize::MAX };
    let nearly = Similarity { matched: usize::MAX - 1, total: usize::MAX };
    assert!(huge.above(&nearly));
    assert!(!nearly.above(&huge));
}

#[test]
fn best_match_is_the_highest_score_that_counts() {
    assert_eq!(best_match(&vec![]), None);
    assert_eq!(best_match(&vec![score(3, 9)]), None);
    assert_eq!(best_match(&vec![score(4, 10)]), Some(0));
    // 0.8, 0.9 and 10/11
    assert_eq!(best_match(&vec![score(4, 10), score(9, 20), score(5, 11)]), Some(2));
    assert_eq!(best_match(&vec![score(4, 10), score(19, 40), score(9, 20)]), Some(1));
    assert_eq!(best_match(&vec![score(3, 9), None, score(5, 11), score(1, 9)]), Some(2));
    assert_eq!(best_match(&vec![None, None]), None);
}

#[test]
fn of_equal_scores_the_first_is_the_match() {
    assert_eq!(best_match(&vec![score(4, 9), score(8, 18), score(4, 9)]), Some(0));
    assert_eq!(best_match(&vec![score(1, 9), score(8, 18), score(4, 9)]), Some(1));
    assert_eq!(best_match(&vec![score(9, 20), score(10, 20), score(5, 10)]), Some(1));
}

#[test]
fn rating_of_the_most_alike_title() {
    let ratings = table(&[("Blade Runner 2049", "4.1"), ("Blade Runner", "4.2"), ("Heat", "4.3")]);
    assert_eq!(get_rating("Blade Runner", &ratings), Some(String::from("4.2")));
    assert_eq!(get_rating("Blade Runner 2049", &ratings), Some(String::from("4.1")));
    assert_eq!(get_rating("Blade Runer", &ratings), Some(String::from("4.2")));
    assert_eq!(get_rating("Heat", &ratings), Some(String::from("4.3")));
}

#[test]
fn rating_at_and_below_the_threshold() {
    // "abcd" against "abcdef": 2 * 4 / 10 = 0.8
    assert_eq!(get_rating("abcdef", &table(&[("abcd", "3.0")])), Some(String::from("3.0")));
    // "abc" against "abcdef": 2 * 3 / 9 < 0.8
    assert_eq!(get_rating("abcdef", &table(&[("abc", "3.0")])), None);
    assert_eq!(
        get_rating("abcdef", &table(&[("abc", "1.0"), ("abcd", "2.0")])),
        Some(String::from("2.0"))
    );
}

#[test]
fn rating_is_absent_without_a_candidate() {
    assert_eq!(get_rating("Heat", &Ratings::new()), None);
    assert_eq!(get_rating("Heat", &table(&[("Cold", "1.0"), ("Alien", "4.0")])), None);
}

#[test]
fn rating_of_the_first_of_equally_alike_titles() {
    // both are 8/9 alike
    let ratings = table(&[("abcdx", "1.0"), ("abcdy", "2.0")]);
    assert_eq!(get_rating("abcd", &ratings), Some(String::from("1.0")));
    let turned = table(&[("abcdy", "2.0"), ("abcdx", "1.0")]);
    assert_eq!(get_rating("abcd", &turned), Some(String::from("2.0")));
}

#[test]
fn later_rating_of_a_title_stays() {
    let mut ratings = table(&[("Heat", "4.0"), ("Alien", "4.5")]);
    assert_eq!(ratings.len(), 2);
    ratings.insert(String::from("Heat"), String::from("4.3"));
    assert_eq!(ratings.len(), 2);
    assert_eq!(ratings.title(0), "Heat");
    assert_eq!(ratings.rating(0), "4.3");
    assert_eq!(ratings.title(1), "Alien");
    assert_eq!(ratings.rating(1), "4.5");
    assert_eq!(ratings.get("Heat"), Some("4.3"));
    assert_eq!(ratings.get("Alien"), Some("4.5"));
    assert_eq!(ratings.get("heat"), None);
    assert_eq!(ratings.get(""), None);
}

#[test]
fn new_table_is_empty() {
    let ratings = Ratings::new();
    assert_eq!(ratings.len(), 0);
    assert_eq!(ratings.get("Heat"), None);
}
