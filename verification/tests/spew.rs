use fourad::{quiet_fa, set_level, spew_fa, verbose_fa, Spew, SpewLevel};

#[test]
fn a_new_threshold_is_standard() {
    let spew = Spew::new();
    assert_eq!(spew.level, SpewLevel::STANDARD);
    assert_eq!(quiet_fa(&spew, "q"), Some("q".to_string()));
    assert_eq!(spew_fa(&spew, "s"), Some("s".to_string()));
    assert_eq!(verbose_fa(&spew, "v"), None);
}

#[test]
fn a_quiet_threshold_passes_quiet_messages_only() {
    let mut spew = Spew::new();
    set_level(&mut spew, SpewLevel::QUIET);
    assert_eq!(spew.level, SpewLevel::QUIET);
    assert_eq!(quiet_fa(&spew, "===> 7"), Some("===> 7".to_string()));
    assert_eq!(spew_fa(&spew, "d6"), None);
    assert_eq!(verbose_fa(&spew, "Rolled: 3"), None);
}

#[test]
fn a_verbose_threshold_passes_everything() {
    let mut spew = Spew::new();
    spew.set_level(SpewLevel::VERBOSE);
    assert_eq!(quiet_fa(&spew, "q"), Some("q".to_string()));
    assert_eq!(spew_fa(&spew, ""), Some(String::new()));
    assert_eq!(verbose_fa(&spew, "Rolled: 3"), Some("Rolled: 3".to_string()));
}

#[test]
fn levels_are_ordered_from_quiet_to_verbose() {
    assert!(SpewLevel::QUIET < SpewLevel::STANDARD);
    assert!(SpewLevel::STANDARD < SpewLevel::VERBOSE);
    assert_eq!(SpewLevel::QUIET.place(), 0);
    assert_eq!(SpewLevel::STANDARD.place(), 1);
    assert_eq!(SpewLevel::VERBOSE.place(), 2);
    let spew = Spew { level: SpewLevel::STANDARD };
    assert_eq!(spew.spew_at_level(SpewLevel::STANDARD, "x"), Some("x".to_string()));
    assert_eq!(spew.spew_at_level(SpewLevel::VERBOSE, "x"), None);
}

#[test]
fn the_switches_of_a_run_set_the_level() {
    let mut spew = Spew::new();
    assert!(fourad::set_spew_level(&mut spew, true, false).is_ok());
    assert_eq!(spew.level, SpewLevel::QUIET);
    assert!(fourad::set_spew_level(&mut spew, false, true).is_ok());
    assert_eq!(spew.level, SpewLevel::VERBOSE);
    assert!(fourad::set_spew_level(&mut spew, false, false).is_ok());
    assert_eq!(spew.level, SpewLevel::STANDARD);
}

#[test]
fn quiet_and_verbose_at_once_is_a_fault() {
    let mut spew = Spew::new();
    spew.set_level(SpewLevel::VERBOSE);
    match fourad::set_spew_level(&mut spew, true, true) {
        Err(fourad::FourADError::GeneralError(text)) => {
            assert_eq!(text, "--quiet and --verbose are not compatible.")
        }
        other => panic!("{:?}", other),
    }
    assert_eq!(spew.level, SpewLevel::VERBOSE);
}
