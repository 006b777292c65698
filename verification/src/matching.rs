//! Applying a matching expression and a replacement template to candidate
//! paths. The regular expression engine does the matching; what it gives is
//! named by [`regex_replaced`], and the list of renames is stated over that
//! name.

use crate::trusted::{regex_accepted, regex_error_text, regex_replace, regex_replaced};
use vstd::prelude::*;

verus! {

/// The engine refused the matching expression.
#[derive(Debug, Clone, PartialEq, Eq)]
pub struct MatchError {
    /// What the engine said of it.
    pub message: String,
}

/// A candidate path that matched, and the destination that the template
/// produced for it.
#[derive(Debug, Clone, PartialEq, Eq)]
pub struct Rename {
    pub source: String,
    pub target: String,
}

/// The mathematical value of a [`Rename`].
pub struct RenameView {
    pub source: Seq<char>,
    pub target: Seq<char>,
}

impl View for Rename {
    type V = RenameView;

    open spec fn view(&self) -> RenameView {
        RenameView { source: self.source@, target: self.target@ }
    }
}

impl DeepView for Rename {
    type V = RenameView;

    open spec fn deep_view(&self) -> RenameView {
        self@
    }
}

/// `renames`, and after them the rename of `path` where the engine gave it a
/// destination.
pub open spec fn with_outcome(
    renames: Seq<RenameView>,
    path: Seq<char>,
    outcome: Option<Seq<char>>,
) -> Seq<RenameView> {
    match outcome {
        Some(target) => renames.push(RenameView { source: path, target }),
        None => renames,
    }
}

/// The renames of the paths that the matching expression `expr` matches, in
/// the order of the paths, each with the destination that the template `rep`
/// produces for it.
pub open spec fn renames_of(paths: Seq<Seq<char>>, expr: Seq<char>, rep: Seq<char>) -> Seq<
    RenameView,
>
    decreases paths.len(),
{
    if paths.len() == 0 {
        Seq::empty()
    } else {
        with_outcome(
            renames_of(paths.drop_last(), expr, rep),
            paths.last(),
            regex_replaced(expr, paths.last(), rep),
        )
    }
}

/// Applies the matching expression `regex` to `s`: the destination that the
/// template `rep` produces where `s` matches, `None` where it does not. Fails
/// exactly where the engine refuses `regex`.
pub fn replace_if_match(regex: &str, s: &str, rep: &str) -> (r: Result<Option<String>, MatchError>)
    ensures
        r is Ok <==> regex_accepted(regex@),
        r matches Ok(replaced) ==> replaced.deep_view() == regex_replaced(regex@, s@, rep@),
{
    match regex_replace(regex, s, rep) {
        Ok(replaced) => Ok(replaced),
        Err(error) => Err(MatchError { message: regex_error_text(&error) }),
    }
}

/// Adds the rename of `path` to `renames` where the engine gave `path` a
/// destination, and leaves `renames` as it is where it gave none.
pub fn record_outcome(renames: &mut Vec<Rename>, path: &str, outcome: Option<String>)
    ensures
        final(renames).deep_view() == with_outcome(
            old(renames).deep_view(),
            path@,
            outcome.deep_view(),
        ),
{
    let ghost before = renames.deep_view();
    match outcome {
        Some(target) => {
            let rename = Rename { source: path.to_owned(), target };
            renames.push(rename);
            assert(renames.deep_view() =~= before.push(rename@));
        },
        None => {},
    }
}

/// Applies the matching expression and the template to each candidate path.
/// A path that does not match is left out, without any error. Fails exactly
/// where there is a path and the engine refuses the expression.
pub fn match_paths(paths: &Vec<String>, regex: &str, rep: &str) -> (r: Result<
    Vec<Rename>,
    MatchError,
>)
    ensures
        r matches Ok(renames) ==> renames.deep_view() == renames_of(
            paths.deep_view(),
            regex@,
            rep@,
        ),
        r is Ok <==> paths.len() == 0 || regex_accepted(regex@),
{
    let ghost all = paths.deep_view();
    let mut renames: Vec<Rename> = Vec::new();
    let mut i: usize = 0;
    assert(renames.deep_view() =~= renames_of(all.take(0), regex@, rep@));
    while i < paths.len()
        invariant
            i <= paths.len(),
            all == paths.deep_view(),
            renames.deep_view() == renames_of(all.take(i as int), regex@, rep@),
            i > 0 ==> regex_accepted(regex@),
        decreases paths.len() - i,
    {
        proof {
            assert(all.take(i + 1).drop_last() =~= all.take(i as int));
            assert(all.take(i + 1).last() == paths[i as int]@);
        }
        match replace_if_match(regex, paths[i].as_str(), rep) {
            Ok(outcome) => {
                record_outcome(&mut renames, paths[i].as_str(), outcome);
            },
            Err(error) => {
                return Err(error);
            },
        }
        i += 1;
    }
    assert(all.take(paths.len() as int) =~= all);
    Ok(renames)
}

/// Asks the engine whether it takes the matching expression, without any
/// path to match: the error is the one that matching would fail with.
pub fn check_regex(regex: &str) -> (r: Result<(), MatchError>)
    ensures
        r is Ok <==> regex_accepted(regex@),
{
    match replace_if_match(regex, "", "") {
        Ok(_) => Ok(()),
        Err(error) => Err(error),
    }
}

} // verus!
