use libcli::config::{Config, OptionPolicy, OptionSpec, ParseError};

#[test]
fn parse_0() {
    let specs = [
        OptionSpec::new(
            '\0',
            "(unnamed)",
            "Unnamed arguments",
            true,
            OptionPolicy::AtLeast(1),
        ),
        OptionSpec::new(
            'r',
            "recursive",
            "Searches recursive",
            false,
            OptionPolicy::Exact(0),
        ),
        OptionSpec::new(
            'o',
            "output",
            "Specifies output file",
            true,
            OptionPolicy::Exact(1),
        ),
        OptionSpec::new(
            'v',
            "verbose",
            "Shows verbose output",
            false,
            OptionPolicy::Exact(1),
        ),
        OptionSpec::new(
            'n',
            "number",
            "The number of iterations to perform",
            false,
            OptionPolicy::Exact(1),
        ),
    ];

    let args = [
        "./test",
        "myfile.txt",
        "--output",
        "output.txt",
        "-rvn",
        "3",
    ];

    println!("Usage:\n{}", Config::generate_usage(&specs, false, true));

    let config = Config::new(&args[..], &specs).unwrap();

    assert_eq!(
        *config
            .option("output")
            .expect("Didn't parse --output option"),
        vec!["output.txt".to_string()],
    );
    assert_eq!(
        *config
            .option("number")
            .expect("Didn't parse --number option"),
        vec!["3".to_string()],
    );
}

#[test]
#[should_panic]
fn parse_too_few() {
    let specs = [OptionSpec::new(
        '\0',
        "(unnamed)",
        "Files to search",
        true,
        OptionPolicy::AtLeast(2),
    )];

    let args = ["./test"];

    Config::new(&args[..], &specs).unwrap();
}

#[test]
#[should_panic]
fn parse_too_many() {
    let specs = [OptionSpec::new(
        '\0',
        "(unnamed)",
        "File to search",
        true,
        OptionPolicy::AtMost(1),
    )];

    let args = ["./test", "file1", "file2"];
    Config::new(&args[..], &specs).unwrap();
}

#[test]
#[should_panic]
fn parse_dup() {
    let specs = [
        OptionSpec::new(
            '\0',
            "(unnamed)",
            "Unnamed",
            true,
            OptionPolicy::AtLeast(1),
        ),
        OptionSpec::new(
            'o',
            "output",
            "Specifies the output file",
            true,
            OptionPolicy::Exact(1),
        ),
    ];

    let args = ["./test", "-o", "file1", "-o", "file2"];
    Config::new(&args[..], &specs).unwrap();
}

#[test]
fn parse_dup_switch() {
    let specs = [
        OptionSpec::new(
            '\0',
            "(unnamed)",
            "Unnamed",
            true,
            OptionPolicy::AtLeast(1),
        ),
        OptionSpec::new(
            'o',
            "output",
            "Specifies the output file",
            true,
            OptionPolicy::Exact(1),
        ),
        OptionSpec::new(
            'v',
            "verbose",
            "Show verbose output",
            true,
            OptionPolicy::Exact(0),
        ),
    ];

    // The first token is the program path and is discarded, so the
    // required `(unnamed)` collector is left without the one value its
    // policy demands; the parse reports that before anything else.
    let args = ["./test", "-vo", "file1", "-v"];
    match Config::new(&args[..], &specs) {
        Err(ParseError::ArityViolation {
            name,
            actual,
            policy,
        }) => {
            assert_eq!(name, "(unnamed)".to_string());
            assert_eq!(actual, 0);
            assert_eq!(policy, OptionPolicy::AtLeast(1));
        }
        _ => panic!("expected an arity violation for the unnamed collector"),
    }
}
