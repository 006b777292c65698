use mass_rename::matching::{check_regex, match_paths, record_outcome, replace_if_match, Rename};
use mass_rename::parse::parse;

fn compiled(source: &str, target: &str) -> (String, String) {
    let (source, target) = parse(source, target);
    let source = source.unwrap_or_else(|e| panic!("In source pattern: {}", e.message()));
    let target = target.unwrap_or_else(|e| panic!("In target pattern: {}", e.message()));
    (source.regex(), target.rep())
}

fn rename(source: &str, target: &str) -> Rename {
    Rename { source: source.to_string(), target: target.to_string() }
}

fn paths(list: &[&str]) -> Vec<String> {
    list.iter().map(|s| s.to_string()).collect()
}

#[test]
fn test_replace_if_match() {
    assert_eq!(replace_if_match("a", "a", "a"), Ok(Some("a".to_string())));
    assert_eq!(replace_if_match("a", "b", "a"), Ok(None));
}

#[test]
fn replacement_is_told_from_the_haystack() {
    assert_eq!(replace_if_match("^(.*)$", "abc", "x${1}y"), Ok(Some("xabcy".to_string())));
    assert_eq!(replace_if_match("^b$", "abc", "x"), Ok(None));
    assert_eq!(replace_if_match("b", "abc", "$$"), Ok(Some("a$c".to_string())));
}

#[test]
fn malformed_expression_is_an_error() {
    let error = replace_if_match("(", "a", "b").unwrap_err();
    assert!(!error.message.is_empty());
    assert!(match_paths(&paths(&["a"]), "(?P<a>x)(?P<a>y)", "z").is_err());
}

#[test]
fn shared_name_is_refused_by_the_engine() {
    let (regex, rep) = compiled("[a]-[a]", "[a]");
    assert_eq!(regex, "^(?P<a>[^/]*)\\-(?P<a>[^/]*)$");
    assert!(match_paths(&paths(&["x-y"]), &regex, &rep).is_err());
}

#[test]
fn outcome_is_recorded_only_where_there_is_one() {
    let mut renames = vec![rename("a", "b")];
    record_outcome(&mut renames, "c", None);
    assert_eq!(renames, vec![rename("a", "b")]);
    record_outcome(&mut renames, "c", Some("d".to_string()));
    assert_eq!(renames, vec![rename("a", "b"), rename("c", "d")]);
}

#[test]
fn paths_that_do_not_match_are_left_out() {
    let (regex, rep) = compiled("[name].txt", "[name].md");
    let renames = match_paths(&paths(&["a.txt", "x.log", "b.txt", "dir/c.txt"]), &regex, &rep);
    assert_eq!(renames, Ok(vec![rename("a.txt", "a.md"), rename("b.txt", "b.md")]));
}

#[test]
fn no_paths_give_no_renames() {
    let (regex, rep) = compiled("[name].txt", "[name].md");
    assert_eq!(match_paths(&paths(&[]), &regex, &rep), Ok(vec![]));
    assert_eq!(match_paths(&paths(&["x.log"]), &regex, &rep), Ok(vec![]));
}

#[test]
fn captures_come_back_by_name() {
    let (regex, rep) = compiled("[artist] - [title].mp3", "[title] ([artist]).mp3");
    assert_eq!(
        match_paths(&paths(&["Cher - Believe.mp3"]), &regex, &rep),
        Ok(vec![rename("Cher - Believe.mp3", "Believe (Cher).mp3")])
    );
}

#[test]
fn captures_come_back_by_position() {
    let (regex, rep) = compiled("[]_[].jpg", "[]/[].jpeg");
    assert_eq!(
        match_paths(&paths(&["2020_holiday.jpg"]), &regex, &rep),
        Ok(vec![rename("2020_holiday.jpg", "2020/holiday.jpeg")])
    );
    let (regex, rep) = compiled("[]_[].jpg", "[][]");
    assert_eq!(
        match_paths(&paths(&["ab_cd.jpg"]), &regex, &rep),
        Ok(vec![rename("ab_cd.jpg", "abcd")])
    );
}

#[test]
fn a_capture_need_not_be_used() {
    let (regex, rep) = compiled("[x].txt", "same.txt");
    assert_eq!(
        match_paths(&paths(&["a.txt", "b.txt"]), &regex, &rep),
        Ok(vec![rename("a.txt", "same.txt"), rename("b.txt", "same.txt")])
    );
}

#[test]
fn single_glob_stays_in_its_segment() {
    let (regex, rep) = compiled("[name]", "[name]");
    assert_eq!(match_paths(&paths(&["a.txt"]), &regex, &rep), Ok(vec![rename("a.txt", "a.txt")]));
    assert_eq!(match_paths(&paths(&["d/a.txt"]), &regex, &rep), Ok(vec![]));
    let (regex, rep) = compiled("[name:**]", "[name]");
    assert_eq!(
        match_paths(&paths(&["d/e/a.txt"]), &regex, &rep),
        Ok(vec![rename("d/e/a.txt", "d/e/a.txt")])
    );
}

#[test]
fn literal_text_matches_itself_and_nothing_else() {
    let text = "a.b+c*d?(e)|[f]{g}^h$i#j&k-l~m\\n";
    let escaped = "a.b+c*d?(e)|[[f]]{g}^h$i#j&k-l~m\\n";
    let (regex, rep) = compiled(escaped, "t");
    assert_eq!(match_paths(&paths(&[text]), &regex, &rep), Ok(vec![rename(text, "t")]));
    let others = paths(&["aXb+c*d?(e)|[f]{g}^h$i#j&k-l~m\\n", "a.b", "", "a.bbc*d?(e)|[f]{g}^h$i#j&k-l~m\\n"]);
    assert_eq!(match_paths(&others, &regex, &rep), Ok(vec![]));
}

#[test]
fn literal_dollar_in_the_target_comes_out_as_it_is() {
    let (regex, rep) = compiled("[n].txt", "$[n]$1${n}.txt");
    assert_eq!(
        match_paths(&paths(&["a.txt"]), &regex, &rep),
        Ok(vec![rename("a.txt", "$a$1${n}.txt")])
    );
}

#[test]
fn substituted_text_is_reproduced() {
    let (regex, rep) = compiled("[a]/[b:**]/[c].[ext]", "[c]-[b]-[a].[ext]");
    let path = "top/mid/dle/leaf.tar";
    assert_eq!(
        match_paths(&paths(&[path]), &regex, &rep),
        Ok(vec![rename(path, "leaf-mid/dle-top.tar")])
    );
    let (regex, rep) = compiled("[]+[]", "[]+[]");
    assert_eq!(match_paths(&paths(&["x+y"]), &regex, &rep), Ok(vec![rename("x+y", "x+y")]));
}

#[test]
fn without_paths_nothing_fails() {
    assert_eq!(match_paths(&paths(&[]), "(", "x"), Ok(vec![]));
    assert_eq!(match_paths(&paths(&[]), "(?P<a>x)(?P<a>y)", "${a}"), Ok(vec![]));
    assert!(match_paths(&paths(&["a"]), "(", "x").is_err());
}

#[test]
fn an_expression_can_be_asked_after_without_paths() {
    assert_eq!(check_regex("^(?P<a>[^/]*)$"), Ok(()));
    assert_eq!(check_regex(""), Ok(()));
    assert!(check_regex("(").is_err());
    assert_eq!(
        check_regex("(?P<a>x)(?P<a>y)").unwrap_err(),
        replace_if_match("(?P<a>x)(?P<a>y)", "xy", "z").unwrap_err()
    );
}

#[test]
fn matching_fails_exactly_where_the_expression_is_refused() {
    for expression in ["a", "^(.*)$", "(", "[", "(?P<a>x)(?P<a>y)", "a{2,1}"] {
        let accepted = check_regex(expression).is_ok();
        assert_eq!(replace_if_match(expression, "a", "b").is_ok(), accepted);
        assert_eq!(match_paths(&paths(&["a", "b"]), expression, "c").is_ok(), accepted);
        assert!(match_paths(&paths(&[]), expression, "c").is_ok());
    }
}
