use mass_rename::matching::match_paths;
use mass_rename::parse::parse;
use mass_rename::plan::{classify, plan, Attempt, IssueSet, PlanEntry, Side};

fn canonical(path: &str) -> String {
    format!("/work/{}", path)
}

fn attempt(source: &str, target: &str) -> Attempt {
    Attempt {
        source: source.to_string(),
        target: target.to_string(),
        canonical_source: Some(canonical(source)),
        canonical_target: Some(canonical(target)),
    }
}

fn entry(source: &str, target: &str) -> PlanEntry {
    PlanEntry {
        canonical_source: canonical(source),
        canonical_target: canonical(target),
        display_source: source.to_string(),
        display_target: target.to_string(),
    }
}

fn attempts_for(candidates: &[&str], source: &str, target: &str) -> Vec<Attempt> {
    let (source, target) = parse(source, target);
    let source = source.unwrap_or_else(|e| panic!("{}", e.message()));
    let target = target.unwrap_or_else(|e| panic!("{}", e.message()));
    let paths: Vec<String> = candidates.iter().map(|s| s.to_string()).collect();
    let renames = match_paths(&paths, &source.regex(), &target.rep())
        .unwrap_or_else(|e| panic!("{}", e.message));
    renames.iter().map(|r| attempt(&r.source, &r.target)).collect()
}

fn no_issues() -> IssueSet {
    IssueSet {
        no_matches: false,
        duplicate_source: None,
        duplicate_target: None,
        source_equals_target_path: None,
    }
}

#[test]
fn a_plain_plan_has_no_issues() {
    let attempts = attempts_for(&["a.txt", "b.txt", "c.log"], "[n].txt", "[n].md");
    let (entries, issues) = plan(&attempts);
    assert_eq!(entries, vec![entry("a.txt", "a.md"), entry("b.txt", "b.md")]);
    assert_eq!(issues, no_issues());
    assert!(!issues.is_fatal());
    assert!(!issues.is_advisory());
}

#[test]
fn a_move_onto_itself_is_left_out() {
    let attempts = attempts_for(&["a.txt"], "[name]", "[name]");
    assert_eq!(attempts, vec![attempt("a.txt", "a.txt")]);
    let (entries, issues) = plan(&attempts);
    assert_eq!(entries, vec![]);
    assert_eq!(issues.duplicate_source, None);
    assert_eq!(issues.duplicate_target, None);
    assert_eq!(issues.source_equals_target_path, None);
    assert!(issues.no_matches);
}

#[test]
fn a_move_onto_itself_is_told_by_the_canonical_paths() {
    let same = Attempt {
        source: "a.txt".to_string(),
        target: "./a.txt".to_string(),
        canonical_source: Some("/work/a.txt".to_string()),
        canonical_target: Some("/work/a.txt".to_string()),
    };
    let other = Attempt {
        source: "b.txt".to_string(),
        target: "b.txt".to_string(),
        canonical_source: Some("/work/b.txt".to_string()),
        canonical_target: Some("/else/b.txt".to_string()),
    };
    let (entries, issues) = plan(&vec![same, other]);
    assert_eq!(
        entries,
        vec![PlanEntry {
            canonical_source: "/work/b.txt".to_string(),
            canonical_target: "/else/b.txt".to_string(),
            display_source: "b.txt".to_string(),
            display_target: "b.txt".to_string(),
        }]
    );
    assert_eq!(issues, no_issues());
}

#[test]
fn a_shared_target_is_a_duplicate_target() {
    let attempts = attempts_for(&["a.txt", "b.txt"], "[x].txt", "same.txt");
    let (entries, issues) = plan(&attempts);
    assert_eq!(entries, vec![entry("a.txt", "same.txt"), entry("b.txt", "same.txt")]);
    assert_eq!(entries[0].canonical_target, "/work/same.txt");
    assert_eq!(entries[1].canonical_target, "/work/same.txt");
    assert_eq!(issues.duplicate_target, Some("/work/same.txt".to_string()));
    assert_eq!(issues.duplicate_source, None);
    assert_eq!(issues.source_equals_target_path, None);
    assert!(!issues.no_matches);
    assert!(issues.is_advisory());
    assert!(!issues.is_fatal());
}

#[test]
fn a_shared_source_is_a_duplicate_source() {
    let attempts = vec![attempt("a.txt", "x.txt"), attempt("b.txt", "y.txt"), attempt("a.txt", "z.txt")];
    let (entries, issues) = plan(&attempts);
    assert_eq!(entries.len(), 3);
    assert_eq!(issues.duplicate_source, Some("/work/a.txt".to_string()));
    assert_eq!(issues.duplicate_target, None);
    assert_eq!(issues.source_equals_target_path, None);
    assert!(issues.is_advisory());
    assert!(!issues.is_fatal());
}

#[test]
fn a_source_that_is_a_target_is_fatal() {
    let mut attempts = attempts_for(&["a.txt", "b.txt"], "a.txt", "b.txt");
    attempts.extend(attempts_for(&["a.txt", "b.txt"], "b.txt", "a.txt"));
    assert_eq!(attempts, vec![attempt("a.txt", "b.txt"), attempt("b.txt", "a.txt")]);
    let (entries, issues) = plan(&attempts);
    assert_eq!(entries, vec![entry("a.txt", "b.txt"), entry("b.txt", "a.txt")]);
    assert_eq!(issues.source_equals_target_path, Some("/work/a.txt".to_string()));
    assert_eq!(issues.duplicate_source, None);
    assert_eq!(issues.duplicate_target, None);
    assert!(issues.is_fatal());
}

#[test]
fn a_chain_of_moves_is_fatal() {
    let attempts = vec![attempt("x", "y"), attempt("a", "b"), attempt("b", "c")];
    let (_, issues) = plan(&attempts);
    assert_eq!(issues.source_equals_target_path, Some("/work/b".to_string()));
    assert!(issues.is_fatal());
}

#[test]
fn nothing_matching_is_fatal() {
    let attempts = attempts_for(&["x.log"], "[name].txt", "[name].md");
    assert_eq!(attempts, vec![]);
    let (entries, issues) = plan(&attempts);
    assert_eq!(entries, vec![]);
    assert_eq!(
        issues,
        IssueSet {
            no_matches: true,
            duplicate_source: None,
            duplicate_target: None,
            source_equals_target_path: None,
        }
    );
    assert!(issues.is_fatal());
    assert!(!issues.is_advisory());
}

#[test]
fn an_unresolved_side_drops_the_pair() {
    let mut no_source = attempt("a", "b");
    no_source.canonical_source = None;
    let mut no_target = attempt("c", "d");
    no_target.canonical_target = None;
    let mut neither = attempt("e", "f");
    neither.canonical_source = None;
    neither.canonical_target = None;
    let (entries, issues) = plan(&vec![no_source, attempt("g", "h"), no_target, neither]);
    assert_eq!(entries, vec![entry("g", "h")]);
    assert_eq!(issues, no_issues());
    assert_eq!(attempt("g", "h").entry(), Some(entry("g", "h")));
    assert_eq!(attempt("g", "g").entry(), None);
}

#[test]
fn entries_keep_the_order_of_the_candidates() {
    let attempts = attempts_for(&["c.txt", "a.txt", "skip", "b.txt"], "[n].txt", "[n].bak");
    let (entries, _) = plan(&attempts);
    assert_eq!(
        entries,
        vec![entry("c.txt", "c.bak"), entry("a.txt", "a.bak"), entry("b.txt", "b.bak")]
    );
}

#[test]
fn the_first_offender_in_input_order_is_named() {
    let entries = vec![
        entry("a", "t1"),
        entry("b", "t2"),
        entry("c", "t2"),
        entry("d", "t1"),
        entry("b", "t3"),
        entry("t3", "t4"),
        entry("t2", "t5"),
    ];
    let issues = classify(&entries);
    assert_eq!(issues.duplicate_target, Some("/work/t1".to_string()));
    assert_eq!(issues.duplicate_source, Some("/work/b".to_string()));
    assert_eq!(issues.source_equals_target_path, Some("/work/t3".to_string()));
    assert!(!issues.no_matches);
}

#[test]
fn classifying_takes_entries_as_they_are() {
    assert!(classify(&vec![]).no_matches);
    let onto_itself = entry("a", "a");
    let issues = classify(&vec![onto_itself]);
    assert_eq!(issues.source_equals_target_path, Some("/work/a".to_string()));
    assert_eq!(issues.duplicate_source, None);
    assert_eq!(issues.duplicate_target, None);
}

#[test]
fn an_entry_has_a_path_on_each_side() {
    let e = entry("a", "b");
    assert_eq!(e.canonical(Side::Source), "/work/a");
    assert_eq!(e.canonical(Side::Target), "/work/b");
}

#[test]
fn detection_does_not_depend_on_the_order() {
    let one = vec![entry("a", "t"), entry("b", "u"), entry("c", "t"), entry("u", "v"), entry("a", "w")];
    let other = vec![entry("a", "w"), entry("u", "v"), entry("c", "t"), entry("b", "u"), entry("a", "t")];
    let first = classify(&one);
    let second = classify(&other);
    assert_eq!(first.no_matches, second.no_matches);
    assert_eq!(first.duplicate_source.is_some(), second.duplicate_source.is_some());
    assert_eq!(first.duplicate_target.is_some(), second.duplicate_target.is_some());
    assert_eq!(
        first.source_equals_target_path.is_some(),
        second.source_equals_target_path.is_some()
    );
    assert!(first.is_fatal() && second.is_fatal());
    assert!(first.is_advisory() && second.is_advisory());
}
