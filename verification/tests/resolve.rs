use mass_rename::resolve::{Reply, Request, ResolveError, Resolver};

fn path(s: &str) -> Reply {
    Reply::Path(s.to_string())
}

fn failed(s: &str) -> Reply {
    Reply::Failed(s.to_string())
}

fn done(path: &str) -> Resolver {
    Resolver::Done(Ok(path.to_string()))
}

fn failure(text: &str) -> Resolver {
    Resolver::Done(Err(ResolveError::Filesystem(text.to_string())))
}

#[test]
fn a_path_that_resolves_is_the_outcome() {
    let resolver = Resolver::new("a.txt");
    assert_eq!(resolver.request(), Some(Request::Canonicalize("a.txt".to_string())));
    let resolver = resolver.advance(path("/work/a.txt"));
    assert_eq!(resolver, done("/work/a.txt"));
    assert_eq!(resolver.request(), None);
    assert_eq!(resolver.outcome(), Some(Ok("/work/a.txt".to_string())));
}

#[test]
fn a_canonical_path_comes_back_unchanged() {
    let resolver = Resolver::new("/work/a.txt").advance(path("/work/a.txt"));
    assert_eq!(resolver.outcome(), Some(Ok("/work/a.txt".to_string())));
}

#[test]
fn a_path_that_exists_and_does_not_resolve_fails() {
    let resolver = Resolver::new("locked/a.txt").advance(failed("permission denied"));
    assert_eq!(
        resolver,
        Resolver::Missing { path: "locked/a.txt".to_string(), error: "permission denied".to_string() }
    );
    assert_eq!(resolver.request(), Some(Request::Exists("locked/a.txt".to_string())));
    let resolver = resolver.advance(Reply::Exists(true));
    assert_eq!(resolver, failure("permission denied"));
    assert_eq!(
        resolver.outcome(),
        Some(Err(ResolveError::Filesystem("permission denied".to_string())))
    );
}

#[test]
fn a_new_name_in_a_directory_is_put_on_the_resolved_directory() {
    let resolver = Resolver::new("dir/new.txt")
        .advance(failed("not found"))
        .advance(Reply::Exists(false));
    assert_eq!(
        resolver,
        Resolver::Parent { directory: "dir".to_string(), name: "new.txt".to_string() }
    );
    assert_eq!(resolver.request(), Some(Request::Canonicalize("dir".to_string())));
    let resolver = resolver.advance(path("/work/dir"));
    assert_eq!(resolver, done("/work/dir/new.txt"));
}

#[test]
fn a_bare_new_name_lies_in_the_working_directory() {
    let resolver = Resolver::new("new.txt").advance(failed("not found")).advance(Reply::Exists(false));
    assert_eq!(resolver, Resolver::WorkingDir { name: "new.txt".to_string() });
    assert_eq!(resolver.request(), Some(Request::WorkingDir));
    let resolver = resolver.advance(path("link/to/work"));
    assert_eq!(
        resolver,
        Resolver::Parent { directory: "link/to/work".to_string(), name: "new.txt".to_string() }
    );
    assert_eq!(resolver.request(), Some(Request::Canonicalize("link/to/work".to_string())));
    assert_eq!(resolver.advance(path("/work")), done("/work/new.txt"));
}

#[test]
fn a_missing_directory_fails_with_its_own_error() {
    let resolver = Resolver::new("gone/new.txt")
        .advance(failed("whole path not found"))
        .advance(Reply::Exists(false))
        .advance(failed("directory not found"));
    assert_eq!(resolver, failure("directory not found"));
}

#[test]
fn a_missing_working_directory_fails_with_its_own_error() {
    let resolver = Resolver::new("new.txt")
        .advance(failed("not found"))
        .advance(Reply::Exists(false))
        .advance(failed("no working directory"));
    assert_eq!(resolver, failure("no working directory"));
}

#[test]
fn a_path_without_a_last_segment_keeps_its_failure() {
    let resolver = Resolver::new("/").advance(failed("odd")).advance(Reply::Exists(false));
    assert_eq!(resolver, failure("odd"));
    let resolver = Resolver::new("a/..").advance(failed("not a directory")).advance(Reply::Exists(false));
    assert_eq!(resolver, failure("not a directory"));
    let resolver = Resolver::new("").advance(failed("empty")).advance(Reply::Exists(false));
    assert_eq!(resolver, failure("empty"));
}

#[test]
fn splitting_decides_where_the_name_lies() {
    assert_eq!(
        Resolver::split("e".to_string(), Some("d".to_string()), Some("n".to_string())),
        Resolver::Parent { directory: "d".to_string(), name: "n".to_string() }
    );
    assert_eq!(
        Resolver::split("e".to_string(), Some("".to_string()), Some("n".to_string())),
        Resolver::WorkingDir { name: "n".to_string() }
    );
    assert_eq!(Resolver::split("e".to_string(), None, Some("n".to_string())), failure("e"));
    assert_eq!(Resolver::split("e".to_string(), Some("d".to_string()), None), failure("e"));
    assert_eq!(Resolver::split("e".to_string(), None, None), failure("e"));
}

#[test]
fn a_reply_that_does_not_answer_ends_the_resolution() {
    let unexpected = Resolver::Done(Err(ResolveError::UnexpectedReply));
    assert_eq!(Resolver::new("a").advance(Reply::Exists(true)), unexpected);
    assert_eq!(
        Resolver::new("a").advance(failed("x")).advance(path("/a")),
        unexpected
    );
    assert_eq!(
        Resolver::new("a").advance(failed("x")).advance(failed("y")),
        unexpected
    );
    assert_eq!(
        Resolver::WorkingDir { name: "n".to_string() }.advance(Reply::Exists(false)),
        unexpected
    );
    assert_eq!(
        Resolver::Parent { directory: "d".to_string(), name: "n".to_string() }
            .advance(Reply::Exists(false)),
        unexpected
    );
}

#[test]
fn a_resolution_that_is_over_stays_as_it_is() {
    assert_eq!(done("/a").advance(path("/b")), done("/a"));
    assert_eq!(done("/a").advance(failed("x")), done("/a"));
    assert_eq!(failure("e").advance(Reply::Exists(true)), failure("e"));
    assert_eq!(Resolver::new("a").outcome(), None);
}

#[test]
fn a_resolution_is_over_after_four_replies() {
    let scripts: Vec<Vec<Reply>> = vec![
        vec![failed("a"), Reply::Exists(false), path("/cwd"), path("/cwd")],
        vec![failed("a"), Reply::Exists(false), path("/cwd"), failed("b")],
        vec![failed("a"), Reply::Exists(true)],
        vec![path("/x")],
        vec![Reply::Exists(true)],
    ];
    for script in scripts {
        let mut resolver = Resolver::new("name");
        let mut replies = 0;
        for reply in script {
            if resolver.request().is_none() {
                break;
            }
            resolver = resolver.advance(reply);
            replies += 1;
        }
        assert!(replies <= 4);
        assert_eq!(resolver.request(), None);
        assert!(resolver.outcome().is_some());
    }
}
