use mass_rename::parse::{parse, parse_source, parse_target, ParseError, ParseErrorKind};
use mass_rename::pattern::{Glob, SourceComponent, SourcePattern, Subst, TargetComponent, TargetPattern};
use mass_rename::text::{chars_of, trim_trailing_slashes};

fn fault(position: usize, kind: ParseErrorKind) -> ParseError {
    ParseError { position, kind }
}

#[test]
fn rejected_patterns() {
    for pattern in ["", "[abc-def]", "[abc", "[1abc]"] {
        assert!(parse_source(pattern).is_err(), "source {:?}", pattern);
        assert!(parse_target(pattern).is_err(), "target {:?}", pattern);
    }
    for pattern in ["[:*]", "[:**]", "[a:*]", "[a:**]", "x[b:*]y", "[a][:**]"] {
        assert!(parse_source(pattern).is_ok(), "source {:?}", pattern);
        assert!(parse_target(pattern).is_err(), "target {:?}", pattern);
    }
}

#[test]
fn each_fault_has_its_kind_and_place() {
    assert_eq!(parse_source(""), Err(fault(0, ParseErrorKind::Empty)));
    assert_eq!(parse_target(""), Err(fault(0, ParseErrorKind::Empty)));
    assert_eq!(parse_source("ab]c"), Err(fault(2, ParseErrorKind::StrayClose)));
    assert_eq!(parse_source("[]]"), Err(fault(2, ParseErrorKind::StrayClose)));
    assert_eq!(parse_source("[[]"), Err(fault(2, ParseErrorKind::StrayClose)));
    assert_eq!(parse_source("[abc"), Err(fault(4, ParseErrorKind::Unterminated)));
    assert_eq!(parse_source("x["), Err(fault(2, ParseErrorKind::Unterminated)));
    assert_eq!(parse_source("[a:"), Err(fault(3, ParseErrorKind::Unterminated)));
    assert_eq!(parse_source("[a:*"), Err(fault(4, ParseErrorKind::Unterminated)));
    assert_eq!(parse_source("[a:**"), Err(fault(5, ParseErrorKind::Unterminated)));
    assert_eq!(parse_source("[a1]"), Err(fault(2, ParseErrorKind::BadName)));
    assert_eq!(parse_source("[1abc]"), Err(fault(1, ParseErrorKind::BadName)));
    assert_eq!(parse_source("[abc-def]"), Err(fault(4, ParseErrorKind::BadName)));
    assert_eq!(parse_source("[é]"), Err(fault(1, ParseErrorKind::BadName)));
    assert_eq!(parse_source("[a[[]"), Err(fault(2, ParseErrorKind::BadName)));
    assert_eq!(parse_source("[:]"), Err(fault(2, ParseErrorKind::BadGlob)));
    assert_eq!(parse_source("[:a]"), Err(fault(2, ParseErrorKind::BadGlob)));
    assert_eq!(parse_source("[:*a]"), Err(fault(3, ParseErrorKind::BadGlob)));
    assert_eq!(parse_source("[:***]"), Err(fault(4, ParseErrorKind::BadGlob)));
    assert_eq!(parse_target("[:*]"), Err(fault(1, ParseErrorKind::GlobInTarget)));
    assert_eq!(parse_target("[named:**]"), Err(fault(6, ParseErrorKind::GlobInTarget)));
    assert_eq!(parse_target("[:a]"), Err(fault(1, ParseErrorKind::GlobInTarget)));
    assert_eq!(parse_target("ok[x:"), Err(fault(4, ParseErrorKind::GlobInTarget)));
}

#[test]
fn the_first_fault_is_reported() {
    assert_eq!(parse_source("a]b[c"), Err(fault(1, ParseErrorKind::StrayClose)));
    assert_eq!(parse_source("[a][b"), Err(fault(5, ParseErrorKind::Unterminated)));
}

#[test]
fn positions_count_characters() {
    assert_eq!(parse_source("éé]"), Err(fault(2, ParseErrorKind::StrayClose)));
}

#[test]
fn a_fault_is_told_in_words() {
    assert_eq!(fault(0, ParseErrorKind::Empty).message(), "at character 0: the pattern is empty");
    assert_eq!(
        fault(12, ParseErrorKind::StrayClose).message(),
        "at character 12: a `]` that closes nothing (write `]]` for the character)"
    );
    assert_eq!(
        fault(4, ParseErrorKind::Unterminated).message(),
        "at character 4: the pattern ends inside a substitution"
    );
    assert_eq!(
        fault(2, ParseErrorKind::BadName).message(),
        "at character 2: expected a letter, `:` or `]`"
    );
    assert_eq!(
        fault(305, ParseErrorKind::BadGlob).message(),
        "at character 305: expected `*]` or `**]` after `:`"
    );
    assert_eq!(
        fault(1, ParseErrorKind::GlobInTarget).message(),
        "at character 1: a target substitution takes no `:`"
    );
    assert_eq!(ParseErrorKind::Empty.description(), "the pattern is empty");
}

#[test]
fn each_side_is_parsed_on_its_own() {
    let (source, target) = parse("[a:**]", "[a:**]");
    assert_eq!(
        source,
        Ok(SourcePattern(vec![SourceComponent::Subst(Subst::Named("a".to_string()), Glob::GlobStar)]))
    );
    assert_eq!(target, Err(fault(2, ParseErrorKind::GlobInTarget)));
    let (source, target) = parse("]", "[a]");
    assert_eq!(source, Err(fault(0, ParseErrorKind::StrayClose)));
    assert_eq!(
        target,
        Ok(TargetPattern(vec![TargetComponent::Subst(Subst::Named("a".to_string()))]))
    );
}

#[test]
fn doubled_brackets_are_literal_brackets() {
    assert_eq!(
        parse_source("[[]]"),
        Ok(SourcePattern(vec![SourceComponent::Literal("[]".to_string())]))
    );
    assert_eq!(
        parse_source("[[a]]"),
        Ok(SourcePattern(vec![SourceComponent::Literal("[a]".to_string())]))
    );
    assert_eq!(
        parse_target("]][["),
        Ok(TargetPattern(vec![TargetComponent::Literal("][".to_string())]))
    );
    assert_eq!(
        parse_source("[a][[[b]]]"),
        Ok(SourcePattern(vec![
            SourceComponent::Subst(Subst::Named("a".to_string()), Glob::Glob),
            SourceComponent::Literal("[".to_string()),
            SourceComponent::Subst(Subst::Named("b".to_string()), Glob::Glob),
            SourceComponent::Literal("]".to_string()),
        ]))
    );
}

#[test]
fn a_slash_is_literal_text() {
    assert_eq!(
        parse_source("dir/"),
        Ok(SourcePattern(vec![SourceComponent::Literal("dir/".to_string())]))
    );
    assert_eq!(
        parse_source("/"),
        Ok(SourcePattern(vec![SourceComponent::Literal("/".to_string())]))
    );
}

#[test]
fn names_are_letters_of_either_case() {
    assert_eq!(
        parse_target("[azAZ]"),
        Ok(TargetPattern(vec![TargetComponent::Subst(Subst::Named("azAZ".to_string()))]))
    );
    assert!(parse_target("[a_b]").is_err());
    assert!(parse_target("[a b]").is_err());
    assert!(parse_target("[`]").is_err());
    assert!(parse_target("[{]").is_err());
    assert!(parse_target("[@]").is_err());
}

#[test]
fn trailing_slashes_can_be_taken_off() {
    assert_eq!(trim_trailing_slashes("dir/"), "dir");
    assert_eq!(trim_trailing_slashes("dir///"), "dir");
    assert_eq!(trim_trailing_slashes("a/b"), "a/b");
    assert_eq!(trim_trailing_slashes("/a/"), "/a");
    assert_eq!(trim_trailing_slashes("/"), "");
    assert_eq!(trim_trailing_slashes(""), "");
    assert_eq!(trim_trailing_slashes("é/"), "é");
}

#[test]
fn characters_are_read_in_order() {
    assert_eq!(chars_of("aé/]"), vec!['a', 'é', '/', ']']);
    assert_eq!(chars_of(""), Vec::<char>::new());
}

#[test]
fn either_way_of_writing_a_glob_reads_the_same() {
    assert_eq!(parse_source("a[x]b[]"), parse_source("a[x:*]b[:*]"));
    assert_ne!(parse_source("[x]"), parse_source("[x:**]"));
    assert_eq!(
        parse_source("[x:**]"),
        Ok(SourcePattern(vec![SourceComponent::Subst(Subst::Named("x".to_string()), Glob::GlobStar)]))
    );
}
