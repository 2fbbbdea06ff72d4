use whisper_notes::args::{is_option, parse_args, Invocation};

fn parse(args: &[&str]) -> Invocation {
    let args: Vec<String> = args.iter().map(|s| s.to_string()).collect();
    parse_args(&args)
}

fn runs(args: &[&str], file: &str, gap: Option<u64>) {
    match parse(args) {
        Invocation::Run(config) => {
            assert_eq!(config.output_file, file);
            assert_eq!(config.timestamp_gap_ms, gap);
        }
        _ => panic!("{:?}", args),
    }
}

fn refused(args: &[&str], expected: &str) {
    match parse(args) {
        Invocation::Refused(message) => assert_eq!(message, expected),
        _ => panic!("{:?}", args),
    }
}

#[test]
fn usage() {
    assert!(matches!(parse(&[]), Invocation::Usage(1)));
    assert!(matches!(parse(&["whisper-notes"]), Invocation::Usage(1)));
    assert!(matches!(parse(&["whisper-notes", "--help"]), Invocation::Usage(0)));
    assert!(matches!(parse(&["whisper-notes", "-h", "x"]), Invocation::Usage(0)));
}

#[test]
fn a_file_is_enough() {
    runs(&["whisper-notes", "notes.txt"], "notes.txt", None);
    runs(&["whisper-notes", ""], "", None);
    runs(&["whisper-notes", "a", "b"], "b", None);
}

#[test]
fn gap_before_or_behind_the_file() {
    runs(&["whisper-notes", "--ts", "200", "t.txt"], "t.txt", Some(200));
    runs(&["whisper-notes", "t.txt", "--ts", "200"], "t.txt", Some(200));
    runs(&["w", "--ts", "1", "--ts", "+2", "t"], "t", Some(2));
}

#[test]
fn refusals() {
    refused(&["w", "--ts"], "Error: --ts requires a value");
    refused(&["w", "a", "--ts"], "Error: --ts requires a value");
    refused(
        &["w", "--ts", "abc", "a"],
        "Error: --ts requires a numeric value in milliseconds",
    );
    refused(
        &["w", "--ts", "-5", "a"],
        "Error: --ts requires a numeric value in milliseconds",
    );
    refused(&["w", "--verbose", "a"], "Error: Unknown option --verbose");
    refused(&["w", "a", "--help"], "Error: Unknown option --help");
    refused(&["w", "-"], "Error: Unknown option -");
    refused(&["w", "--ts", "5"], "Error: No output file specified");
}

#[test]
fn options_begin_with_a_hyphen() {
    assert!(is_option("-x"));
    assert!(!is_option(""));
    assert!(!is_option("x-"));
}
