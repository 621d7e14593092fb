use libcli::config::{Config, OptionPolicy, OptionSpec, ParseError};

fn unnamed(policy: OptionPolicy) -> OptionSpec {
    OptionSpec::new('\0', "(unnamed)", "Leading arguments", false, policy)
}

#[test]
fn switch_idempotent() {
    let specs = [
        unnamed(OptionPolicy::AtLeast(0)),
        OptionSpec::new('v', "verbose", "Show verbose output", false, OptionPolicy::Exact(0)),
    ];

    let once = Config::new(&["./p", "-v"][..], &specs).unwrap();
    assert_eq!(*once.option("verbose").unwrap(), Vec::<String>::new());

    let twice = Config::new(&["./p", "-v", "-v"][..], &specs).unwrap();
    assert_eq!(*twice.option("verbose").unwrap(), Vec::<String>::new());
}

#[test]
fn long_switch_idempotent() {
    let specs = [
        unnamed(OptionPolicy::AtLeast(0)),
        OptionSpec::new('v', "verbose", "Show verbose output", false, OptionPolicy::Exact(0)),
    ];

    let twice = Config::new(&["./p", "--verbose", "--verbose"][..], &specs).unwrap();
    assert_eq!(*twice.option("verbose").unwrap(), Vec::<String>::new());
}

#[test]
fn repeated_switch_in_groups() {
    let specs = [
        unnamed(OptionPolicy::AtLeast(1)),
        OptionSpec::new('o', "output", "Output file", true, OptionPolicy::Exact(1)),
        OptionSpec::new('v', "verbose", "Show verbose output", true, OptionPolicy::Exact(0)),
    ];

    let config = Config::new(&["./p", "input.txt", "-vo", "file1", "-v"][..], &specs).unwrap();
    assert_eq!(*config.option("verbose").unwrap(), Vec::<String>::new());
    assert_eq!(*config.option("output").unwrap(), vec!["file1".to_string()]);
}

#[test]
fn duplicate_option_detected() {
    let specs = [
        unnamed(OptionPolicy::AtLeast(0)),
        OptionSpec::new('o', "output", "Output file", false, OptionPolicy::Exact(1)),
    ];

    match Config::new(&["./p", "-o", "file1", "-o", "file2"][..], &specs) {
        Err(ParseError::DuplicateOption { name }) => assert_eq!(name, "output".to_string()),
        _ => panic!("expected a duplicate-option error"),
    }
}

#[test]
fn arity_at_most_boundary() {
    let specs = [
        unnamed(OptionPolicy::AtLeast(0)),
        OptionSpec::new('f', "files", "Files to search", false, OptionPolicy::AtMost(1)),
    ];

    match Config::new(&["./p", "-f", "a", "b"][..], &specs) {
        Err(ParseError::ArityViolation { name, actual, policy }) => {
            assert_eq!(name, "files".to_string());
            assert_eq!(actual, 2);
            assert_eq!(policy, OptionPolicy::AtMost(1));
        }
        _ => panic!("expected an arity violation"),
    }

    let config = Config::new(&["./p", "-f", "a"][..], &specs).unwrap();
    assert_eq!(*config.option("files").unwrap(), vec!["a".to_string()]);
}

#[test]
fn grouped_abbreviations() {
    let specs = [
        unnamed(OptionPolicy::AtLeast(0)),
        OptionSpec::new('r', "recursive", "Searches recursive", false, OptionPolicy::Exact(0)),
        OptionSpec::new('v', "verbose", "Shows verbose output", false, OptionPolicy::Exact(0)),
        OptionSpec::new('n', "number", "Iteration count", false, OptionPolicy::Exact(1)),
    ];

    let config = Config::new(&["./p", "-rvn", "3"][..], &specs).unwrap();
    assert_eq!(*config.option("recursive").unwrap(), Vec::<String>::new());
    assert_eq!(*config.option("verbose").unwrap(), Vec::<String>::new());
    assert_eq!(*config.option("number").unwrap(), vec!["3".to_string()]);
}

#[test]
fn missing_required_reported() {
    let specs = [
        unnamed(OptionPolicy::AtLeast(0)),
        OptionSpec::new('o', "output", "Output file", true, OptionPolicy::Exact(1)),
    ];

    match Config::new(&["./p"][..], &specs) {
        Err(ParseError::MissingRequiredOption { name }) => {
            assert_eq!(name, "output".to_string())
        }
        _ => panic!("expected a missing-required error"),
    }
}

#[test]
fn unknown_long_option_reported() {
    let specs = [unnamed(OptionPolicy::AtLeast(0))];

    match Config::new(&["./p", "--bogus"][..], &specs) {
        Err(ParseError::UnknownLongOption { token }) => assert_eq!(token, "bogus".to_string()),
        _ => panic!("expected an unknown-option error"),
    }
}

#[test]
fn unknown_abbreviation_reported() {
    let specs = [unnamed(OptionPolicy::AtLeast(0))];

    match Config::new(&["./p", "-x"][..], &specs) {
        Err(ParseError::UnknownAbbreviation { abbrev }) => assert_eq!(abbrev, 'x'),
        _ => panic!("expected an unknown-abbreviation error"),
    }
}

#[test]
fn unnamed_spec_present_never_reported_missing() {
    // With exactly one `(unnamed)` specification in the list, a failing
    // parse reports the actual violation, never a missing unnamed spec.
    let specs = [unnamed(OptionPolicy::AtLeast(0))];

    match Config::new(&["./p", "--bogus"][..], &specs) {
        Err(ParseError::MissingUnnamedSpec) => panic!("the unnamed spec is present"),
        Err(_) => {}
        Ok(_) => panic!("expected an error for the unknown option"),
    }
}

#[test]
fn missing_unnamed_spec_reported() {
    let specs = [OptionSpec::new('o', "output", "Output file", false, OptionPolicy::Exact(1))];

    match Config::new(&["./p", "-o", "file1"][..], &specs) {
        Err(ParseError::MissingUnnamedSpec) => {}
        _ => panic!("expected the missing-unnamed-spec error"),
    }
}

#[test]
fn positionals_kept_in_order() {
    let specs = [unnamed(OptionPolicy::AtLeast(0))];

    let config = Config::new(&["./p", "a", "b", "c"][..], &specs).unwrap();
    assert_eq!(
        *config.option("(unnamed)").unwrap(),
        vec!["a".to_string(), "b".to_string(), "c".to_string()],
    );
}

#[test]
fn empty_token_list() {
    let specs = [unnamed(OptionPolicy::AtLeast(0))];

    let config = Config::new(&[][..], &specs).unwrap();
    assert_eq!(*config.option("(unnamed)").unwrap(), Vec::<String>::new());
    assert!(config.option("output").is_none());
}

#[test]
fn flag_at_end_still_enforced() {
    let specs = [
        unnamed(OptionPolicy::AtLeast(0)),
        OptionSpec::new('o', "output", "Output file", false, OptionPolicy::Exact(1)),
    ];

    match Config::new(&["./p", "-o"][..], &specs) {
        Err(ParseError::ArityViolation { name, actual, policy }) => {
            assert_eq!(name, "output".to_string());
            assert_eq!(actual, 0);
            assert_eq!(policy, OptionPolicy::Exact(1));
        }
        _ => panic!("expected an arity violation at end of input"),
    }
}

#[test]
fn bare_dash_reopens_window() {
    let specs = [unnamed(OptionPolicy::AtLeast(0))];

    // A bare dash closes the unnamed window and reopens it; the second
    // close is a duplicate, since the collector is not a switch.
    match Config::new(&["./p", "a", "-"][..], &specs) {
        Err(ParseError::DuplicateOption { name }) => assert_eq!(name, "(unnamed)".to_string()),
        _ => panic!("expected a duplicate-option error"),
    }
}

#[test]
fn usage_rendering_exact() {
    let specs = [
        OptionSpec::new('r', "recursive", "Read all", false, OptionPolicy::Exact(0)),
        OptionSpec::new('o', "output", "Out file", true, OptionPolicy::Exact(1)),
    ];

    let both = Config::generate_usage(&specs, true, true);
    assert_eq!(
        both,
        "    -o, --output [required]\n        Out file\n\n    -r, --recursive \n        Read all\n\n",
    );

    let required_only = Config::generate_usage(&specs, true, false);
    assert_eq!(
        required_only,
        "    -o, --output [required]\n        Out file\n\n",
    );

    let neither = Config::generate_usage(&specs, false, false);
    assert_eq!(neither, "");
}
