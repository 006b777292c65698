use mass_rename::plan::PlanEntry;
use mass_rename::report::DryFlags;

fn flags(maybe_not_dry: bool, very_much_dry: bool) -> DryFlags {
    DryFlags { maybe_not_dry, very_much_dry }
}

#[test]
fn a_rename_is_shown_with_its_display_paths() {
    let entry = PlanEntry {
        canonical_source: "/work/a b.txt".to_string(),
        canonical_target: "/work/out/a b.md".to_string(),
        display_source: "a b.txt".to_string(),
        display_target: "out/a b.md".to_string(),
    };
    assert_eq!(entry.command_line("mv"), "mv 'a b.txt'\t'out/a b.md'");
    assert_eq!(entry.command_line("cp -a"), "cp -a 'a b.txt'\t'out/a b.md'");
    assert_eq!(entry.command_line(""), " 'a b.txt'\t'out/a b.md'");
}

#[test]
fn a_run_is_dry_unless_only_a_real_run_was_asked_for() {
    assert!(flags(false, false).is_dry());
    assert!(flags(false, true).is_dry());
    assert!(flags(true, true).is_dry());
    assert!(!flags(true, false).is_dry());
}

#[test]
fn advice_follows_the_switches() {
    assert_eq!(
        flags(false, false).advice(),
        vec![
            "NOTICE: This was a DRY RUN!!!!!".to_string(),
            "        If you like the results, use the -D flag to DO IT!".to_string(),
        ]
    );
    assert_eq!(
        flags(true, true).advice(),
        vec![
            "NOTICE: This was a DRY RUN!!!!!".to_string(),
            "        If you like the results, remove the -d flag.".to_string(),
        ]
    );
    assert_eq!(
        flags(false, true).advice(),
        vec![
            "NOTICE: This was a DRY RUN!!!!! (in fact; this is the default! Forget -d!)".to_string(),
            "        If you like the results, replace -d with -D to DO IT!".to_string(),
        ]
    );
    assert_eq!(flags(true, false).advice(), Vec::<String>::new());
}
