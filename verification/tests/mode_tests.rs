use typy::config::ModeSettings;
use typy::mode::{collect_mode_names, parse_mode_type, Mode, ModeError, ModeType};

fn mode(names: Vec<&str>) -> Result<Mode, ModeError> {
    Mode::from_str(names, ModeSettings::default())
}

#[test]
fn test_from_str_valid_mode() {
    let mode = mode(vec!["normal", "uppercase", "punctuation"]).unwrap();
    assert_eq!(mode.modes, vec![ModeType::Normal]);
}

#[test]
fn test_from_str_valid_modes() {
    let mode = mode(vec!["uppercase", "punctuation"]).unwrap();
    assert_eq!(mode.modes, vec![ModeType::Uppercase, ModeType::Punctuation]);
}

#[test]
fn test_from_str_invalid_mode() {
    let mode = mode(vec!["invalid"]);
    assert!(mode.is_err());
}

#[test]
fn test_add_duration() {
    let mode = mode(vec!["normal"]).unwrap().add_duration(10);
    assert_eq!(mode.modes, vec![ModeType::Normal]);
    assert_eq!(mode.duration, 10);
}

#[test]
fn test_transform_uppercase() {
    let mode = mode(vec!["uppercase"]).unwrap();
    let mut list = vec![vec!["hello".to_string(), "world".to_string()]];
    mode.transform(&mut list);
    assert_eq!(list.len(), 1);
    assert_eq!(list[0].len(), 2);
}

#[test]
fn test_transform_numbers() {
    let mode = mode(vec!["numbers"]).unwrap();
    let mut list = vec![vec!["hello".to_string(), "world".to_string()]];
    mode.transform(&mut list);
    for word in &list[0] {
        assert!(word == "hello" || word == "world" || word.chars().all(|c| c.is_ascii_digit()));
        assert!(word.chars().count() <= 5);
    }
}

#[test]
fn test_transform_punctuation() {
    let mode = mode(vec!["punctuation"]).unwrap();
    let mut list = vec![vec!["hello".to_string(), "world".to_string()]];
    mode.transform(&mut list);
    assert_eq!(list.len(), 1);
    assert_eq!(list[0].len(), 2);
}

#[test]
fn no_mode_name_takes_the_defaults() {
    let settings = ModeSettings {
        default_modes: vec![ModeType::Uppercase, ModeType::Numbers],
        uppercase_chance: 0,
        punctuation_chance: 0,
        numbers_chance: 0,
    };
    let mode = Mode::from_str(vec![], settings).unwrap();
    assert_eq!(mode.modes, vec![ModeType::Uppercase, ModeType::Numbers]);
    assert_eq!(mode.duration, 0);
}

#[test]
fn invalid_mode_reports_first_unknown_name() {
    match mode(vec!["uppercase", "bold", "italic"]) {
        Err(ModeError::InvalidMode(name)) => assert_eq!(name, "bold"),
        Ok(_) => panic!("expected an error"),
    }
}

#[test]
fn mode_type_parses_by_name() {
    assert_eq!("numbers".parse::<ModeType>(), Ok(ModeType::Numbers));
    assert_eq!("Numbers".parse::<ModeType>(), Err(()));
    assert_eq!(parse_mode_type("punctuation"), Some(ModeType::Punctuation));
    assert_eq!(parse_mode_type(""), None);
}

#[test]
fn certain_chances_always_alter() {
    let settings = ModeSettings {
        default_modes: vec![ModeType::Normal],
        uppercase_chance: 1_000_000,
        punctuation_chance: 1_000_000,
        numbers_chance: 0,
    };
    let mode = Mode::from_str(vec!["uppercase", "punctuation"], settings).unwrap();
    let mut list = vec![vec!["ab".to_string(), "cd".to_string()], vec!["ef".to_string()]];
    mode.transform(&mut list);
    assert!(list[0][0].starts_with("AB"));
    assert_eq!(list[0][0].chars().count(), 3);
    assert!(".,!?;:-".contains(list[0][0].chars().last().unwrap()));
    assert_eq!(list[0][1], "CD");
    assert_eq!(list[1][0], "EF");
}

#[test]
fn zero_chances_never_alter() {
    let settings = ModeSettings {
        default_modes: vec![ModeType::Normal],
        uppercase_chance: 0,
        punctuation_chance: 0,
        numbers_chance: 0,
    };
    let mode = Mode::from_str(vec!["uppercase", "punctuation", "numbers"], settings).unwrap();
    let mut list = vec![vec!["ab".to_string(), "cd".to_string()]];
    mode.transform(&mut list);
    assert_eq!(list, vec![vec!["ab".to_string(), "cd".to_string()]]);
}

#[test]
fn certain_numbers_replace_words_with_short_numbers() {
    let settings = ModeSettings {
        default_modes: vec![ModeType::Normal],
        uppercase_chance: 0,
        punctuation_chance: 0,
        numbers_chance: 1_000_000,
    };
    let mode = Mode::from_str(vec!["numbers"], settings).unwrap();
    let mut list = vec![vec!["a".to_string(), "abcdef".to_string(), "ab".to_string()]];
    mode.transform(&mut list);
    let limits = [1, 3, 2];
    for (w, limit) in list[0].iter().zip(limits.iter()) {
        assert!(w.chars().all(|c| c.is_ascii_digit()));
        assert!(w.chars().count() <= *limit);
        assert!(!w.is_empty());
    }
}

#[test]
fn flags_add_modes_and_drop_normal() {
    let given = vec!["normal".to_string()];
    assert_eq!(collect_mode_names(&given, true, false), vec!["punctuation".to_string()]);
    assert_eq!(collect_mode_names(&given, false, false), vec!["normal".to_string()]);
    assert_eq!(
        collect_mode_names(&vec![], true, true),
        vec!["punctuation".to_string(), "numbers".to_string()]
    );
}

#[test]
fn comma_joined_names_combine_modes() {
    let m = mode(vec!["uppercase,punctuation"]).unwrap();
    assert_eq!(m.modes, vec![ModeType::Uppercase, ModeType::Punctuation]);
    let m = mode(vec!["uppercase, numbers", "punctuation"]).unwrap();
    assert_eq!(m.modes, vec![ModeType::Uppercase, ModeType::Numbers, ModeType::Punctuation]);
    let m = mode(vec!["numbers,normal"]).unwrap();
    assert_eq!(m.modes, vec![ModeType::Normal]);
    match mode(vec!["uppercase, bold"]) {
        Err(ModeError::InvalidMode(name)) => assert_eq!(name, "bold"),
        Ok(_) => panic!("expected an error"),
    }
}

#[test]
fn a_new_game_shows_the_altered_words() {
    let settings = ModeSettings {
        default_modes: vec![ModeType::Normal],
        uppercase_chance: 1_000_000,
        punctuation_chance: 0,
        numbers_chance: 0,
    };
    let m = Mode::from_str(vec!["uppercase"], settings).unwrap();
    let game = m.new_game(vec![vec!["ab".to_string(), "cd".to_string()]]);
    assert_eq!(game.list, vec![vec!["AB".to_string(), "CD".to_string()]]);
    assert_eq!(game.original_list, game.list);
    assert_eq!((game.player.position_x, game.player.position_y), (0, 0));
}
