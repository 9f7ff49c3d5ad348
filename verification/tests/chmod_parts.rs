use tinyutils::chmod::octal::parse_octal;
use tinyutils::chmod::symbolic::{apply_clause, apply_clauses, ModeError};
use tinyutils::chmod::text::{chars_of, has_char};

fn chars(text: &str) -> Vec<char> {
    text.chars().collect()
}

#[test]
fn chars_of_gives_every_character() {
    assert_eq!(chars_of(""), Vec::<char>::new());
    assert_eq!(chars_of("u+rw"), vec!['u', '+', 'r', 'w']);
    assert_eq!(chars_of("é=你"), vec!['é', '=', '你']);
}

#[test]
fn has_char_finds_what_is_there() {
    assert!(has_char(&chars("u+rw"), '+'));
    assert!(has_char(&chars("u+rw"), 'w'));
    assert!(has_char(&chars("u+rw"), 'u'));
    assert!(!has_char(&chars("u+rw"), '-'));
    assert!(!has_char(&chars(""), '+'));
}

#[test]
fn parse_octal_reads_digits_most_significant_first() {
    assert_eq!(parse_octal(&chars("0")), Some(0));
    assert_eq!(parse_octal(&chars("7")), Some(7));
    assert_eq!(parse_octal(&chars("10")), Some(8));
    assert_eq!(parse_octal(&chars("644")), Some(420));
    assert_eq!(parse_octal(&chars("0000644")), Some(420));
    assert_eq!(parse_octal(&chars("37777777777")), Some(u32::MAX));
}

#[test]
fn parse_octal_refuses_what_is_no_number_of_32_bits() {
    assert_eq!(parse_octal(&chars("")), None);
    assert_eq!(parse_octal(&chars("8")), None);
    assert_eq!(parse_octal(&chars("19")), None);
    assert_eq!(parse_octal(&chars("+7")), None);
    assert_eq!(parse_octal(&chars("-7")), None);
    assert_eq!(parse_octal(&chars("7 ")), None);
    assert_eq!(parse_octal(&chars("٧")), None);
    assert_eq!(parse_octal(&chars("40000000000")), None);
    assert_eq!(parse_octal(&chars("37777777778")), None);
    assert_eq!(parse_octal(&chars("377777777770")), None);
}

#[test]
fn apply_clause_sets_clears_and_assigns() {
    assert_eq!(apply_clause(0o644, &chars("u+x")), Ok(0o744));
    assert_eq!(apply_clause(0o644, &chars("go-r")), Ok(0o600));
    assert_eq!(apply_clause(0o644, &chars("g=wx")), Ok(0o634));
    assert_eq!(apply_clause(0o644, &chars("=")), Ok(0));
    assert_eq!(apply_clause(0o644, &chars("a=x")), Ok(0o111));
    assert_eq!(apply_clause(0o644, &chars("+w")), Ok(0o666));
    assert_eq!(apply_clause(0o4644, &chars("u=r")), Ok(0o4444));
    assert_eq!(apply_clause(0, &chars("uuu+rrr")), Ok(0o400));
    assert_eq!(apply_clause(0, &chars("ua+x")), Ok(0o111));
}

#[test]
fn apply_clause_says_what_is_wrong() {
    assert_eq!(apply_clause(0, &chars("")), Err(ModeError::InvalidFormat));
    assert_eq!(apply_clause(0, &chars("ugo")), Err(ModeError::InvalidFormat));
    assert_eq!(apply_clause(0, &chars("r")), Err(ModeError::InvalidOperation));
    assert_eq!(apply_clause(0, &chars("u,")), Err(ModeError::InvalidOperation));
    assert_eq!(apply_clause(0, &chars("u+,")), Err(ModeError::InvalidPermission(',')));
    assert_eq!(apply_clause(0, &chars("u+rwxt")), Err(ModeError::InvalidPermission('t')));
    // The operation is looked at before the permissions.
    assert_eq!(apply_clause(0, &chars("u*z")), Err(ModeError::InvalidOperation));
}

#[test]
fn apply_clauses_goes_from_left_to_right() {
    assert_eq!(apply_clauses(0o644, &chars("u+x")), Ok(0o744));
    assert_eq!(apply_clauses(0o644, &chars("u+x,g+w,o=")), Ok(0o760));
    assert_eq!(apply_clauses(0, &chars("a+r,a-r")), Ok(0));
    assert_eq!(apply_clauses(0, &chars("a-r,a+r")), Ok(0o444));
    assert_eq!(apply_clauses(0, &chars("")), Err(ModeError::InvalidFormat));
    assert_eq!(apply_clauses(0, &chars("u+x,")), Err(ModeError::InvalidFormat));
    assert_eq!(apply_clauses(0, &chars("u+q,u*x")), Err(ModeError::InvalidPermission('q')));
    assert_eq!(apply_clauses(0, &chars("u*x,u+q")), Err(ModeError::InvalidOperation));
}
