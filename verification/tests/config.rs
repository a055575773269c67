use minigrep::{Config, MissingArgument, CASE_INSENSITIVE_KEY};
use std::cell::Cell;

fn words(list: &[&str]) -> Vec<String> {
    list.iter().map(|word| word.to_string()).collect()
}

#[test]
fn three_arguments_resolve() {
    let args = words(&["minigrep", "duct", "poem.txt"]);
    let config = Config::new(&args, |_| None).unwrap();
    assert_eq!("duct", config.query);
    assert_eq!("poem.txt", config.filename);
    assert!(config.case_sensitive);
}

#[test]
fn further_arguments_do_not_count() {
    let args = words(&["minigrep", "duct", "poem.txt", "extra", "more"]);
    let config = Config::new(&args, |_| None).unwrap();
    assert_eq!("duct", config.query);
    assert_eq!("poem.txt", config.filename);
    assert!(config.case_sensitive);
}

#[test]
fn program_name_is_not_the_query() {
    let args = words(&["duct", "poem.txt", "other.txt"]);
    let config = Config::new(&args, |_| None).unwrap();
    assert_eq!("poem.txt", config.query);
    assert_eq!("other.txt", config.filename);
}

#[test]
fn empty_query_is_accepted() {
    let args = words(&["minigrep", "", "poem.txt"]);
    let config = Config::new(&args, |_| None).unwrap();
    assert_eq!("", config.query);
    assert_eq!("poem.txt", config.filename);
}

#[test]
fn fewer_than_three_arguments_fail() {
    assert_eq!(Some(MissingArgument), Config::new(&words(&[]), |_| None).err());
    assert_eq!(Some(MissingArgument), Config::new(&words(&["minigrep"]), |_| None).err());
    assert_eq!(Some(MissingArgument), Config::new(&words(&["minigrep", "duct"]), |_| None).err());
    assert_eq!(
        Some(MissingArgument),
        Config::new(&words(&["minigrep", "duct"]), |_| Some(String::new())).err()
    );
}

#[test]
fn message_of_missing_argument() {
    assert_eq!("Sufficient arguments were not passed", MissingArgument.message());
    let error = Config::new(&words(&["minigrep"]), |_| None).unwrap_err();
    assert_eq!("Sufficient arguments were not passed", error.message());
}

#[test]
fn absent_variable_leaves_case_on() {
    let args = words(&["minigrep", "duct", "poem.txt"]);
    assert!(Config::new(&args, |_| None).unwrap().case_sensitive);
    assert!(Config::resolve(&args, None).unwrap().case_sensitive);
}

#[test]
fn empty_variable_switches_case_off() {
    let args = words(&["minigrep", "duct", "poem.txt"]);
    assert!(!Config::new(&args, |_| Some(String::new())).unwrap().case_sensitive);
    assert!(!Config::resolve(&args, Some(String::new())).unwrap().case_sensitive);
}

#[test]
fn value_of_the_variable_does_not_count() {
    let args = words(&["minigrep", "duct", "poem.txt"]);
    for value in ["1", "0", "true", "false", "no", " "] {
        let config = Config::new(&args, |_| Some(value.to_string())).unwrap();
        assert!(!config.case_sensitive);
        assert_eq!("duct", config.query);
        assert_eq!("poem.txt", config.filename);
        assert!(!Config::resolve(&args, Some(value.to_string())).unwrap().case_sensitive);
    }
}

#[test]
fn environment_is_asked_for_the_key() {
    assert_eq!("CASE_INSENSITIVE", CASE_INSENSITIVE_KEY);
    let args = words(&["minigrep", "duct", "poem.txt"]);
    let only_the_key = |key: &str| {
        if key == "CASE_INSENSITIVE" {
            Some(String::from("1"))
        } else {
            None
        }
    };
    assert!(!Config::new(&args, only_the_key).unwrap().case_sensitive);
    let all_but_the_key = |key: &str| {
        if key == "CASE_INSENSITIVE" {
            None
        } else {
            Some(String::from("1"))
        }
    };
    assert!(Config::new(&args, all_but_the_key).unwrap().case_sensitive);
}

#[test]
fn environment_is_asked_once_and_only_with_enough_arguments() {
    let asked = Cell::new(0);
    let counting = |_: &str| {
        asked.set(asked.get() + 1);
        None
    };
    assert!(Config::new(&words(&["minigrep", "duct"]), &counting).is_err());
    assert_eq!(0, asked.get());
    assert!(Config::new(&words(&["minigrep", "duct", "poem.txt"]), &counting).is_ok());
    assert_eq!(1, asked.get());
}

#[test]
fn resolve_takes_the_second_and_third_argument() {
    let args = words(&["minigrep", "duct", "poem.txt", "extra"]);
    let config = Config::resolve(&args, None).unwrap();
    assert_eq!("duct", config.query);
    assert_eq!("poem.txt", config.filename);
    assert!(config.case_sensitive);
    assert_eq!(Some(MissingArgument), Config::resolve(&words(&["minigrep", "duct"]), None).err());
    assert_eq!(
        Some(MissingArgument),
        Config::resolve(&words(&[]), Some(String::from("1"))).err()
    );
}

#[test]
fn configuration_owns_its_texts() {
    let config = {
        let args = words(&["minigrep", "duct", "poem.txt"]);
        Config::new(&args, |_| None).unwrap()
    };
    assert_eq!("duct", config.query);
    assert_eq!("poem.txt", config.filename);
}
