//! What this library believes without proof: the calls into the `regex` and
//! `glob` crates, and the few functions of `std` that it needs and that have
//! no verified specification. Everything else in the library is proved from
//! the contracts stated here.

use vstd::prelude::*;

verus! {

/// `String::push`: the string grows by the one character, at its end.
#[verifier::external_body]
pub(crate) fn push_char(s: &mut String, c: char)
    ensures
        final(s)@ == old(s)@.push(c),
{
    s.push(c)
}

/// The characters that mean something in a regular expression, as
/// `regex_syntax::is_meta_character` lists them.
pub open spec fn is_regex_meta(c: char) -> bool {
    c == '\\' || c == '.' || c == '+' || c == '*' || c == '?' || c == '(' || c == ')' || c == '|'
        || c == '[' || c == ']' || c == '{' || c == '}' || c == '^' || c == '$' || c == '#' || c
        == '&' || c == '-' || c == '~'
}

/// `text` with a backslash put before each of its meta characters.
pub open spec fn regex_escaped(text: Seq<char>) -> Seq<char>
    decreases text.len(),
{
    if text.len() == 0 {
        Seq::empty()
    } else if is_regex_meta(text.last()) {
        regex_escaped(text.drop_last()).push('\\').push(text.last())
    } else {
        regex_escaped(text.drop_last()).push(text.last())
    }
}

/// `regex::escape`: walks the characters of `text` and copies each, after a
/// backslash where `regex_syntax::is_meta_character` holds of it.
#[verifier::external_body]
pub(crate) fn regex_escape(text: &str) -> (escaped: String)
    ensures
        escaped@ == regex_escaped(text@),
{
    regex::escape(text)
}

/// The characters that mean something in a globbing expression outside
/// brackets, as `glob::Pattern::escape` lists them.
pub open spec fn is_glob_meta(c: char) -> bool {
    c == '?' || c == '*' || c == '[' || c == ']'
}

/// `text` with each of its meta characters put in brackets of its own.
pub open spec fn glob_escaped(text: Seq<char>) -> Seq<char>
    decreases text.len(),
{
    if text.len() == 0 {
        Seq::empty()
    } else if is_glob_meta(text.last()) {
        glob_escaped(text.drop_last()).push('[').push(text.last()).push(']')
    } else {
        glob_escaped(text.drop_last()).push(text.last())
    }
}

/// `glob::Pattern::escape`: walks the characters of `text` and copies each,
/// in brackets of its own where it is one of `?`, `*`, `[` and `]`.
#[verifier::external_body]
pub(crate) fn glob_escape(text: &str) -> (escaped: String)
    ensures
        escaped@ == glob_escaped(text@),
{
    glob::Pattern::escape(text)
}

/// The error of the `regex` crate.
#[verifier::external_type_specification]
#[verifier::external_body]
pub struct ExRegexError(regex::Error);

/// Whether `Regex::new` compiles `expr`: it refuses an expression that is
/// malformed, and one that compiles to more than its size limit. The limit
/// is counted in bytes of the compiled form, so this is the answer of the
/// library as it was built.
pub uninterp spec fn regex_accepted(expr: Seq<char>) -> bool;

/// What `Regex::replace` gives for the haystack `text` and the template `rep`
/// on the regular expression that `Regex::new` compiles from `expr`: `None`
/// where nothing in `text` matches, else `text` with its leftmost-first match
/// replaced by the template, the references of the template expanded.
pub uninterp spec fn regex_replaced(expr: Seq<char>, text: Seq<char>, rep: Seq<char>) -> Option<
    Seq<char>,
>;

/// `Regex::new`, then `Regex::replace` on what it compiled; the expression is
/// compiled anew at each call. The call fails exactly where `Regex::new`
/// refuses the expression, with its error. `Regex::replace` hands the
/// haystack back borrowed where it found no match, and an owned string where
/// it replaced one: the two are told apart, and the owned string is handed
/// on.
#[verifier::external_body]
pub(crate) fn regex_replace(expr: &str, text: &str, rep: &str) -> (r: Result<
    Option<String>,
    regex::Error,
>)
    ensures
        r is Ok <==> regex_accepted(expr@),
        r matches Ok(replaced) ==> replaced.deep_view() == regex_replaced(expr@, text@, rep@),
{
    let regex = regex::Regex::new(expr)?;
    Ok(
        match regex.replace(text, rep) {
            std::borrow::Cow::Borrowed(_) => None,
            std::borrow::Cow::Owned(replaced) => Some(replaced),
        },
    )
}

/// The text of an error of the `regex` crate, as its `Display` writes it.
#[verifier::external_body]
pub(crate) fn regex_error_text(error: &regex::Error) -> String {
    error.to_string()
}

/// What `Path::parent` gives for `path`: the path without its final
/// component, if it has one. How a path splits is the platform's matter, so
/// this is the answer of the library as it was built.
pub uninterp spec fn path_parent_of(path: Seq<char>) -> Option<Seq<char>>;

/// `Path::parent`, the path taken from a string and the result made a string
/// again; it is a part of `path`, so nothing is lost on the way.
#[verifier::external_body]
pub(crate) fn path_parent(path: &str) -> (parent: Option<String>)
    ensures
        parent.deep_view() == path_parent_of(path@),
{
    match std::path::Path::new(path).parent() {
        Some(parent) => Some(parent.to_string_lossy().into_owned()),
        None => None,
    }
}

/// What `Path::file_name` gives for `path`: its final component, if that is
/// an ordinary name. This is the answer of the library as it was built.
pub uninterp spec fn path_file_name_of(path: Seq<char>) -> Option<Seq<char>>;

/// `Path::file_name`, the path taken from a string and the result made a
/// string again; it is a part of `path`, so nothing is lost on the way.
#[verifier::external_body]
pub(crate) fn path_file_name(path: &str) -> (name: Option<String>)
    ensures
        name.deep_view() == path_file_name_of(path@),
{
    match std::path::Path::new(path).file_name() {
        Some(name) => Some(name.to_string_lossy().into_owned()),
        None => None,
    }
}

/// What `PathBuf::push` makes of the path `base` when `name` is pushed onto
/// it. This is the answer of the library as it was built.
pub uninterp spec fn path_joined(base: Seq<char>, name: Seq<char>) -> Seq<char>;

/// `PathBuf::push`, the two paths taken from strings and the result made a
/// string again; it is made of the two, so nothing is lost on the way.
#[verifier::external_body]
pub(crate) fn path_join(base: &str, name: &str) -> (joined: String)
    ensures
        joined@ == path_joined(base@, name@),
{
    let mut joined = std::path::PathBuf::from(base);
    joined.push(name);
    joined.to_string_lossy().into_owned()
}

} // verus!
