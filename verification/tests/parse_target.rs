use mass_rename::parse::{parse, ParseError};
use mass_rename::pattern::Subst::{Named, Positional};
use mass_rename::pattern::TargetComponent::{self, Literal, Subst};
use mass_rename::pattern::TargetPattern;

fn parse_target(target: &str) -> Result<TargetPattern, ParseError> {
    parse("x", target).1
}

fn assert_target(input: &str, expected: Vec<TargetComponent>) {
    parse_target(input).unwrap_or_else(|e| panic!("{}", e.message()));
    assert_eq!(parse_target(input), Ok(TargetPattern(expected)));
}

fn assert_target_fails(input: &str) {
    assert!(parse_target(input).is_err());
}

#[test]
fn test_target() {
    let named = |s: &'static str| Subst(Named(s.to_string()));
    let pos = || Subst(Positional);
    let lit = |s: &'static str| Literal(s.to_string());

    assert_target("literal", vec![lit("literal")]);
    assert_target("[named]", vec![named("named")]);
    assert_target("[]", vec![pos()]);
    assert_target_fails("[:*]");
    assert_target_fails("[named:**]");
    assert_target_fails("[:**]");

    assert_target("[named]", vec![named("named")]);
    assert_target("ab]]c[[def", vec![lit("ab]c[def")]);
    assert_target(
        "so[]me-[example]e",
        vec![lit("so"), pos(), lit("me-"), named("example"), lit("e")],
    );

    assert_target_fails("[named:*]");
    assert_target_fails("[:***]");
    assert_target_fails("[:*a]");
    assert_target_fails("[:a]");
    assert_target_fails("");
    assert_target_fails("[asbf-sf]");
    assert_target_fails("[asb");
    assert_target_fails("[abc]]");

    assert_target_fails("[[]");
    assert_target_fails("[]]");
    assert_target("[[[]", vec![lit("["), pos()]);
    assert_target("[]]]", vec![pos(), lit("]")]);
}
