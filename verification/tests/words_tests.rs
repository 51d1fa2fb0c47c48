use typy::words::{check_if_fits, get_words, random_word, fill_line};

fn sample_words() -> Vec<String> {
    ["abacus", "abdomen", "abide", "ability", "ablaze", "able", "abnormal", "abrasion", "abroad", "absence"]
        .iter()
        .map(|w| w.to_string())
        .collect()
}

#[test]
fn test_check_if_fits() {
    let word = "Hello".to_string();
    let mut fitted_words = Vec::new();
    let lenght = 5;
    assert!(check_if_fits(&word, &mut fitted_words, lenght));
    fitted_words.push("Hello".to_string());
    assert!(!check_if_fits(&word, &mut fitted_words, lenght));
}

#[test]
fn test_get_words() {
    let line_length = 70;
    let words = get_words(&sample_words(), line_length);

    for word in &words {
        let mut length = 0;
        for w in word {
            length += w.chars().count() as i32;
        }
        assert!(length <= line_length);
    }
}

#[test]
fn test_random_word() {
    let words = vec!["Hello".to_string(), "World".to_string()];
    let word = random_word(&words);
    assert!(word == "Hello" || word == "World");
}

#[test]
fn get_words_gives_three_lines() {
    let lines = get_words(&sample_words(), 30);
    assert_eq!(lines.len(), 3);
    for line in &lines {
        let letters: usize = line.iter().map(|w| w.chars().count()).sum();
        assert!(letters <= 30);
        for w in line {
            assert!(sample_words().contains(w));
        }
    }
}

#[test]
fn fill_line_stops_before_overflowing() {
    let words = vec!["abc".to_string()];
    let line = fill_line(&words, 10);
    assert_eq!(line, vec!["abc".to_string(), "abc".to_string(), "abc".to_string()]);
}

#[test]
fn fill_line_is_empty_when_no_word_fits() {
    let words = vec!["abcdef".to_string()];
    assert!(fill_line(&words, 5).is_empty());
    assert!(fill_line(&words, -3).is_empty());
}

#[test]
fn check_if_fits_counts_characters_not_bytes() {
    let fitted = vec!["ñañ".to_string()];
    assert!(check_if_fits("año", &fitted, 6));
    assert!(!check_if_fits("años", &fitted, 6));
}
