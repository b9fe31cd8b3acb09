use fontfor::args::get;
use fontfor::args::Args;
use fontfor::args::ArgsError;
use fontfor::args::Parsed;
use fontfor::args::UsageError;
use fontfor::one_char::OneChar;
use fontfor::one_char::OneCharError;

fn toks(words: &[&str]) -> Vec<Vec<u8>> {
    words.iter().map(|w| w.as_bytes().to_vec()).collect()
}

fn invocation(verbose: bool, preview: bool, tui: bool, c: char) -> Result<Parsed, ArgsError> {
    Ok(Parsed::Invocation(Args {
        verbose,
        preview,
        tui,
        char: OneChar(c),
    }))
}

#[test]
fn verbose_with_ascii_positional() {
    assert_eq!(get(&toks(&["-v", "A"])), invocation(true, false, false, 'A'));
}

#[test]
fn multibyte_positional_accepted() {
    // U+6587, a single scalar value with a multi-byte encoding
    assert_eq!(
        get(&toks(&["\u{6587}"])),
        invocation(false, false, false, '\u{6587}')
    );
}

#[test]
fn two_scalar_positional_rejected_with_count() {
    assert_eq!(
        get(&toks(&["ab"])),
        Err(ArgsError::Character(0, OneCharError::TooManyCharacters(2)))
    );
}

#[test]
fn missing_positional_is_usage_error() {
    assert_eq!(
        get(&toks(&[])),
        Err(ArgsError::Usage(UsageError::MissingPositional))
    );
}

#[test]
fn tui_and_preview_both_recorded() {
    assert_eq!(
        get(&toks(&["--tui", "--preview", "X"])),
        invocation(false, true, true, 'X')
    );
}

#[test]
fn flag_order_is_irrelevant() {
    let first = get(&toks(&["-v", "-p", "C"]));
    let second = get(&toks(&["C", "-v", "-p"]));
    let third = get(&toks(&["-p", "-v", "C"]));
    assert_eq!(first, invocation(true, true, false, 'C'));
    assert_eq!(second, first);
    assert_eq!(third, first);
}

#[test]
fn long_and_short_flags_agree() {
    assert_eq!(
        get(&toks(&["--verbose", "--preview", "--tui", "Z"])),
        get(&toks(&["-v", "-p", "-t", "Z"]))
    );
}

#[test]
fn help_without_positional_succeeds() {
    assert_eq!(get(&toks(&["--help"])), Ok(Parsed::Help));
    assert_eq!(get(&toks(&["-h"])), Ok(Parsed::Help));
}

#[test]
fn help_skips_all_other_validation() {
    assert_eq!(get(&toks(&["ab", "cd", "--bogus", "--help"])), Ok(Parsed::Help));
}

#[test]
fn version_reported() {
    assert_eq!(get(&toks(&["--version"])), Ok(Parsed::Version));
}

#[test]
fn help_wins_over_version() {
    assert_eq!(get(&toks(&["--version", "--help"])), Ok(Parsed::Help));
}

#[test]
fn unknown_flag_is_usage_error() {
    assert_eq!(
        get(&toks(&["--bogus", "A"])),
        Err(ArgsError::Usage(UsageError::UnknownFlag(0)))
    );
}

#[test]
fn first_unknown_flag_reported() {
    assert_eq!(
        get(&toks(&["-v", "--bogus", "--worse", "A"])),
        Err(ArgsError::Usage(UsageError::UnknownFlag(1)))
    );
}

#[test]
fn duplicate_positional_is_usage_error() {
    assert_eq!(
        get(&toks(&["A", "B"])),
        Err(ArgsError::Usage(UsageError::DuplicatePositional))
    );
}

#[test]
fn repeated_flag_is_idempotent() {
    assert_eq!(
        get(&toks(&["-v", "-v", "A"])),
        invocation(true, false, false, 'A')
    );
}

#[test]
fn single_dash_is_positional() {
    assert_eq!(get(&toks(&["-"])), invocation(false, false, false, '-'));
}

#[test]
fn empty_positional_is_empty_input() {
    assert_eq!(
        get(&toks(&[""])),
        Err(ArgsError::Character(0, OneCharError::EmptyInput))
    );
}

#[test]
fn invalid_positional_is_invalid_encoding() {
    let tokens: Vec<Vec<u8>> = vec![vec![0xff, 0xfe]];
    assert_eq!(
        get(&tokens),
        Err(ArgsError::Character(0, OneCharError::InvalidEncoding))
    );
}

#[test]
fn double_dash_is_an_unknown_flag() {
    // there is no positional escape: `--` is flag-shaped and unrecognized
    assert_eq!(
        get(&toks(&["--", "A"])),
        Err(ArgsError::Usage(UsageError::UnknownFlag(0)))
    );
}

#[test]
fn flags_after_positional_recorded() {
    assert_eq!(get(&toks(&["A", "-t"])), invocation(false, false, true, 'A'));
}
