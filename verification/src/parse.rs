//! The pattern parser.
//!
//! A pattern is one or more components. A component is a run of literal
//! text, in which `[[` and `]]` stand for one bracket each, or a substitution
//! in brackets: `[name]` or `[]`, and on the source side also `[name:*]`,
//! `[:*]`, `[name:**]` and `[:**]`. Any other bracket is an error.

use crate::grammar::{lemma_parsed_source_is_written, lemma_parsed_target_is_written};
use crate::pattern::{
    is_bracket, is_letter, Glob, SourceComponent, SourceComponentView, SourcePattern, Subst,
    SubstView, TargetComponent, TargetComponentView, TargetPattern,
};
use crate::text::{chars_of, decimal, push_decimal};
use crate::trusted::push_char;
use vstd::prelude::*;

verus! {

/// Why a pattern does not parse.
#[derive(Debug, Copy, Clone, PartialEq, Eq)]
pub enum ParseErrorKind {
    /// The pattern is empty.
    Empty,
    /// A `]` that closes nothing and is not doubled.
    StrayClose,
    /// The pattern ends inside a substitution.
    Unterminated,
    /// Inside a substitution, a character that is neither a letter of the
    /// name nor `:` nor `]`.
    BadName,
    /// After the `:` of a substitution, something else than `*]` or `**]`.
    BadGlob,
    /// A `:` in a substitution of a target pattern.
    GlobInTarget,
}

/// A parse failure: the kind of fault and the character position, counted
/// from 0, at which it was found.
#[derive(Debug, Copy, Clone, PartialEq, Eq)]
pub struct ParseError {
    pub position: usize,
    pub kind: ParseErrorKind,
}

impl ParseErrorKind {
    /// The fault in words.
    pub open spec fn spec_description(self) -> Seq<char> {
        match self {
            ParseErrorKind::Empty => "the pattern is empty"@,
            ParseErrorKind::StrayClose => "a `]` that closes nothing (write `]]` for the character)"@,
            ParseErrorKind::Unterminated => "the pattern ends inside a substitution"@,
            ParseErrorKind::BadName => "expected a letter, `:` or `]`"@,
            ParseErrorKind::BadGlob => "expected `*]` or `**]` after `:`"@,
            ParseErrorKind::GlobInTarget => "a target substitution takes no `:`"@,
        }
    }

    /// The fault in words.
    pub fn description(self) -> (r: &'static str)
        ensures
            r@ == self.spec_description(),
    {
        match self {
            ParseErrorKind::Empty => "the pattern is empty",
            ParseErrorKind::StrayClose => "a `]` that closes nothing (write `]]` for the character)",
            ParseErrorKind::Unterminated => "the pattern ends inside a substitution",
            ParseErrorKind::BadName => "expected a letter, `:` or `]`",
            ParseErrorKind::BadGlob => "expected `*]` or `**]` after `:`",
            ParseErrorKind::GlobInTarget => "a target substitution takes no `:`",
        }
    }
}

impl ParseError {
    /// The failure in words: the position, then the fault.
    pub open spec fn spec_message(self) -> Seq<char> {
        "at character "@ + decimal(self.position as nat) + ": "@ + self.kind.spec_description()
    }

    /// The failure in words: the position, then the fault.
    pub fn message(&self) -> (r: String)
        ensures
            r@ == self.spec_message(),
    {
        let mut out = String::new();
        out.append("at character ");
        push_decimal(&mut out, self.position);
        out.append(": ");
        out.append(self.kind.description());
        assert(out@ =~= self.spec_message());
        out
    }
}

/// What parsing gives, as a mathematical value.
pub type Parsed<T> = Result<T, ParseError>;

/// The fault of the given kind at position `at`.
pub open spec fn fault(kind: ParseErrorKind, at: int) -> ParseError {
    ParseError { position: at as usize, kind }
}

/// The length of the literal character that starts at `i`: 1 for a character
/// that is no bracket, 2 for a doubled bracket, 0 where neither starts.
pub open spec fn literal_char_len(s: Seq<char>, i: int) -> int {
    if !(0 <= i < s.len()) {
        0
    } else if !is_bracket(s[i]) {
        1
    } else if i + 1 < s.len() && s[i + 1] == s[i] {
        2
    } else {
        0
    }
}

/// Where the run of literal characters that starts at `i` ends.
pub open spec fn literal_end(s: Seq<char>, i: int) -> int
    decreases s.len() - i,
{
    if literal_char_len(s, i) > 0 {
        literal_end(s, i + literal_char_len(s, i))
    } else {
        i
    }
}

/// The text that the literal characters from `i` up to `j` stand for: each
/// character stands for itself, a doubled bracket for one bracket.
pub open spec fn literal_text(s: Seq<char>, i: int, j: int) -> Seq<char>
    decreases j - i,
{
    if literal_char_len(s, i) > 0 && i + literal_char_len(s, i) <= j {
        seq![s[i]] + literal_text(s, i + literal_char_len(s, i), j)
    } else {
        Seq::empty()
    }
}

/// Where the run of letters that starts at `i` ends.
pub open spec fn letters_end(s: Seq<char>, i: int) -> int
    decreases s.len() - i,
{
    if 0 <= i < s.len() && is_letter(s[i]) {
        letters_end(s, i + 1)
    } else {
        i
    }
}

/// The glob kind that is written from `m` on, directly after a `:`, and the
/// position after the bracket that closes the substitution.
pub open spec fn glob_at(s: Seq<char>, m: int) -> Parsed<(Glob, int)> {
    if m >= s.len() {
        Err(fault(ParseErrorKind::Unterminated, m))
    } else if s[m] != '*' {
        Err(fault(ParseErrorKind::BadGlob, m))
    } else if m + 1 >= s.len() {
        Err(fault(ParseErrorKind::Unterminated, m + 1))
    } else if s[m + 1] == ']' {
        Ok((Glob::Glob, m + 2))
    } else if s[m + 1] != '*' {
        Err(fault(ParseErrorKind::BadGlob, m + 1))
    } else if m + 2 >= s.len() {
        Err(fault(ParseErrorKind::Unterminated, m + 2))
    } else if s[m + 2] == ']' {
        Ok((Glob::GlobStar, m + 3))
    } else {
        Err(fault(ParseErrorKind::BadGlob, m + 2))
    }
}

/// The name that the letters from `i` up to `k` make: none is positional.
pub open spec fn subst_id(s: Seq<char>, i: int, k: int) -> SubstView {
    if k <= i {
        SubstView::Positional
    } else {
        SubstView::Named(s.subrange(i, k))
    }
}

/// The substitution whose bracket opens at `i`, and the position after it.
/// Without a glob kind written, the kind is `Glob`. With `globs` false a `:`
/// is a fault, whatever follows it.
pub open spec fn subst_at(s: Seq<char>, i: int, globs: bool) -> Parsed<(SourceComponentView, int)> {
    let k = letters_end(s, i + 1);
    let id = subst_id(s, i + 1, k);
    if k >= s.len() {
        Err(fault(ParseErrorKind::Unterminated, k))
    } else if s[k] == ']' {
        Ok((SourceComponentView::Subst(id, Glob::Glob), k + 1))
    } else if s[k] != ':' {
        Err(fault(ParseErrorKind::BadName, k))
    } else if !globs {
        Err(fault(ParseErrorKind::GlobInTarget, k))
    } else {
        match glob_at(s, k + 1) {
            Ok((glob, end)) => Ok((SourceComponentView::Subst(id, glob), end)),
            Err(e) => Err(e),
        }
    }
}

/// The component that starts at `i`, a position inside `s`, and the position
/// after it. A run of literal text goes as far as it can.
pub open spec fn component_at(s: Seq<char>, i: int, globs: bool) -> Parsed<
    (SourceComponentView, int),
> {
    if literal_char_len(s, i) > 0 {
        let end = literal_end(s, i);
        Ok((SourceComponentView::Literal(literal_text(s, i, end)), end))
    } else if s[i] == '[' {
        subst_at(s, i, globs)
    } else {
        Err(fault(ParseErrorKind::StrayClose, i))
    }
}

/// The components from `i` to the end of `s`, or the first fault.
pub open spec fn components_from(s: Seq<char>, i: int, globs: bool) -> Parsed<
    Seq<SourceComponentView>,
>
    decreases s.len() - i,
{
    if i >= s.len() || i < 0 {
        Ok(Seq::empty())
    } else {
        match component_at(s, i, globs) {
            Err(e) => Err(e),
            Ok((c, end)) => if end <= i || end > s.len() {
                // does not occur: a component is not empty and ends inside `s`
                Ok(seq![c])
            } else {
                match components_from(s, end, globs) {
                    Err(e) => Err(e),
                    Ok(rest) => Ok(seq![c] + rest),
                }
            },
        }
    }
}

/// The components of a pattern, or its first fault.
pub open spec fn parsed_components(s: Seq<char>, globs: bool) -> Parsed<Seq<SourceComponentView>> {
    if s.len() == 0 {
        Err(fault(ParseErrorKind::Empty, 0))
    } else {
        components_from(s, 0, globs)
    }
}

/// What a source pattern parses to.
pub open spec fn parsed_source(s: Seq<char>) -> Parsed<Seq<SourceComponentView>> {
    parsed_components(s, true)
}

/// What a target pattern parses to.
pub open spec fn parsed_target(s: Seq<char>) -> Parsed<Seq<TargetComponentView>> {
    match parsed_components(s, false) {
        Ok(p) => Ok(p.map_values(|c: SourceComponentView| c.to_target())),
        Err(e) => Err(e),
    }
}

/// The mathematical value of what `parse` gives for a source pattern.
pub open spec fn source_result_view(r: Result<SourcePattern, ParseError>) -> Parsed<
    Seq<SourceComponentView>,
> {
    match r {
        Ok(p) => Ok(p@),
        Err(e) => Err(e),
    }
}

/// The mathematical value of what `parse` gives for a target pattern.
pub open spec fn target_result_view(r: Result<TargetPattern, ParseError>) -> Parsed<
    Seq<TargetComponentView>,
> {
    match r {
        Ok(p) => Ok(p@),
        Err(e) => Err(e),
    }
}

/// A run of literal characters ends at or after its start, inside `s`.
pub proof fn lemma_literal_end_bounds(s: Seq<char>, i: int)
    requires
        0 <= i <= s.len(),
    ensures
        i <= literal_end(s, i) <= s.len(),
        literal_char_len(s, i) > 0 ==> i < literal_end(s, i),
        literal_char_len(s, literal_end(s, i)) == 0,
    decreases s.len() - i,
{
    if literal_char_len(s, i) > 0 {
        lemma_literal_end_bounds(s, i + literal_char_len(s, i));
    }
}

/// A run of letters ends at or after its start, inside `s`, and holds
/// letters only.
pub proof fn lemma_letters_end_bounds(s: Seq<char>, i: int)
    requires
        0 <= i <= s.len(),
    ensures
        i <= letters_end(s, i) <= s.len(),
        forall|k: int| i <= k < letters_end(s, i) ==> is_letter(#[trigger] s[k]),
        letters_end(s, i) < s.len() ==> !is_letter(s[letters_end(s, i)]),
    decreases s.len() - i,
{
    if i < s.len() && is_letter(s[i]) {
        lemma_letters_end_bounds(s, i + 1);
    }
}

/// A component ends after its start, inside `s`.
pub proof fn lemma_component_advances(s: Seq<char>, i: int, globs: bool)
    requires
        0 <= i < s.len(),
    ensures
        component_at(s, i, globs) matches Ok((_, end)) ==> i < end <= s.len(),
{
    lemma_literal_end_bounds(s, i);
    lemma_letters_end_bounds(s, i + 1);
}

fn is_ascii_letter(c: char) -> (r: bool)
    ensures
        r == is_letter(c),
{
    ('a' <= c && c <= 'z') || ('A' <= c && c <= 'Z')
}

/// The length of the literal character that starts at `i`.
fn literal_char_at(s: &Vec<char>, i: usize) -> (n: usize)
    requires
        i <= s.len(),
    ensures
        n == literal_char_len(s@, i as int),
        i + n <= s.len(),
{
    if i >= s.len() {
        0
    } else if s[i] != '[' && s[i] != ']' {
        1
    } else if i + 1 < s.len() && s[i + 1] == s[i] {
        2
    } else {
        0
    }
}

/// Reads the run of literal text that starts at `i`.
fn read_literal(s: &Vec<char>, i: usize) -> (r: (String, usize))
    requires
        i < s.len(),
        literal_char_len(s@, i as int) > 0,
    ensures
        r.1 == literal_end(s@, i as int),
        r.0@ == literal_text(s@, i as int, r.1 as int),
        i < r.1 <= s.len(),
{
    let ghost end = literal_end(s@, i as int);
    let mut text = String::new();
    let mut j: usize = i;
    let mut n: usize = literal_char_at(s, j);
    proof {
        lemma_literal_end_bounds(s@, i as int);
    }
    while n > 0
        invariant
            i <= j <= s.len(),
            j <= end <= s.len(),
            n == literal_char_len(s@, j as int),
            literal_end(s@, j as int) == end,
            literal_text(s@, i as int, end) == text@ + literal_text(s@, j as int, end),
        decreases s.len() - j,
    {
        proof {
            lemma_literal_end_bounds(s@, j as int);
            lemma_literal_end_bounds(s@, j + n);
            assert(text@ + (seq![s@[j as int]] + literal_text(s@, j + n, end)) =~= text@.push(
                s@[j as int],
            ) + literal_text(s@, j + n, end));
        }
        push_char(&mut text, s[j]);
        j += n;
        n = literal_char_at(s, j);
    }
    proof {
        assert(text@ + Seq::<char>::empty() =~= text@);
    }
    (text, j)
}

/// Reads the run of letters that starts at `i`.
fn read_letters(s: &Vec<char>, i: usize) -> (r: (String, usize))
    requires
        i <= s.len(),
    ensures
        r.1 == letters_end(s@, i as int),
        r.0@ == s@.subrange(i as int, r.1 as int),
        i <= r.1 <= s.len(),
{
    let mut name = String::new();
    let mut k: usize = i;
    proof {
        lemma_letters_end_bounds(s@, i as int);
        assert(name@ =~= s@.subrange(i as int, i as int));
    }
    while k < s.len() && is_ascii_letter(s[k])
        invariant
            i <= k <= s.len(),
            letters_end(s@, k as int) == letters_end(s@, i as int),
            name@ == s@.subrange(i as int, k as int),
        decreases s.len() - k,
    {
        proof {
            assert(s@.subrange(i as int, k + 1) =~= s@.subrange(i as int, k as int).push(
                s@[k as int],
            ));
        }
        push_char(&mut name, s[k]);
        k += 1;
    }
    (name, k)
}

/// Reads the glob kind that is written from `m` on, directly after a `:`.
fn read_glob(s: &Vec<char>, m: usize) -> (r: Result<(Glob, usize), ParseError>)
    requires
        m <= s.len(),
    ensures
        match r {
            Ok((glob, end)) => glob_at(s@, m as int) == Ok::<(Glob, int), ParseError>(
                (glob, end as int),
            ) && end <= s.len(),
            Err(e) => glob_at(s@, m as int) == Err::<(Glob, int), ParseError>(e),
        },
{
    if m >= s.len() {
        Err(ParseError { position: m, kind: ParseErrorKind::Unterminated })
    } else if s[m] != '*' {
        Err(ParseError { position: m, kind: ParseErrorKind::BadGlob })
    } else if m + 1 >= s.len() {
        Err(ParseError { position: m + 1, kind: ParseErrorKind::Unterminated })
    } else if s[m + 1] == ']' {
        Ok((Glob::Glob, m + 2))
    } else if s[m + 1] != '*' {
        Err(ParseError { position: m + 1, kind: ParseErrorKind::BadGlob })
    } else if m + 2 >= s.len() {
        Err(ParseError { position: m + 2, kind: ParseErrorKind::Unterminated })
    } else if s[m + 2] == ']' {
        Ok((Glob::GlobStar, m + 3))
    } else {
        Err(ParseError { position: m + 2, kind: ParseErrorKind::BadGlob })
    }
}

/// Reads the substitution whose bracket opens at `i`.
fn read_subst(s: &Vec<char>, i: usize, globs: bool) -> (r: Result<
    (SourceComponent, usize),
    ParseError,
>)
    requires
        i < s.len(),
    ensures
        match r {
            Ok((c, end)) => subst_at(s@, i as int, globs) == Ok::<
                (SourceComponentView, int),
                ParseError,
            >((c@, end as int)) && end <= s.len(),
            Err(e) => subst_at(s@, i as int, globs) == Err::<
                (SourceComponentView, int),
                ParseError,
            >(e),
        },
{
    let (name, k) = read_letters(s, i + 1);
    let id = if k == i + 1 {
        Subst::Positional
    } else {
        Subst::Named(name)
    };
    assert(id@ == subst_id(s@, i + 1, k as int));
    if k >= s.len() {
        Err(ParseError { position: k, kind: ParseErrorKind::Unterminated })
    } else if s[k] == ']' {
        Ok((SourceComponent::Subst(id, Glob::Glob), k + 1))
    } else if s[k] != ':' {
        Err(ParseError { position: k, kind: ParseErrorKind::BadName })
    } else if !globs {
        Err(ParseError { position: k, kind: ParseErrorKind::GlobInTarget })
    } else {
        match read_glob(s, k + 1) {
            Ok((glob, end)) => Ok((SourceComponent::Subst(id, glob), end)),
            Err(e) => Err(e),
        }
    }
}

/// Reads the component that starts at `i`.
fn read_component(s: &Vec<char>, i: usize, globs: bool) -> (r: Result<
    (SourceComponent, usize),
    ParseError,
>)
    requires
        i < s.len(),
    ensures
        match r {
            Ok((c, end)) => component_at(s@, i as int, globs) == Ok::<
                (SourceComponentView, int),
                ParseError,
            >((c@, end as int)) && i < end <= s.len(),
            Err(e) => component_at(s@, i as int, globs) == Err::<
                (SourceComponentView, int),
                ParseError,
            >(e),
        },
{
    proof {
        lemma_component_advances(s@, i as int, globs);
    }
    if literal_char_at(s, i) > 0 {
        let (text, end) = read_literal(s, i);
        Ok((SourceComponent::Literal(text), end))
    } else if s[i] == '[' {
        read_subst(s, i, globs)
    } else {
        Err(ParseError { position: i, kind: ParseErrorKind::StrayClose })
    }
}

/// `before`, followed by what the rest of the pattern parses to.
pub open spec fn continued(
    before: Seq<SourceComponentView>,
    rest: Parsed<Seq<SourceComponentView>>,
) -> Parsed<Seq<SourceComponentView>> {
    match rest {
        Ok(p) => Ok(before + p),
        Err(e) => Err(e),
    }
}

/// Reads the components of a pattern.
fn read_components(s: &Vec<char>, globs: bool) -> (r: Result<Vec<SourceComponent>, ParseError>)
    ensures
        match r {
            Ok(p) => parsed_components(s@, globs) == Ok::<Seq<SourceComponentView>, ParseError>(
                p.deep_view(),
            ),
            Err(e) => parsed_components(s@, globs) == Err::<Seq<SourceComponentView>, ParseError>(
                e,
            ),
        },
{
    if s.len() == 0 {
        return Err(ParseError { position: 0, kind: ParseErrorKind::Empty });
    }
    let mut out: Vec<SourceComponent> = Vec::new();
    let mut i: usize = 0;
    assert(continued(out.deep_view(), components_from(s@, 0, globs)) =~= components_from(
        s@,
        0,
        globs,
    )) by {
        match components_from(s@, 0, globs) {
            Ok(p) => {
                assert(out.deep_view() + p =~= p);
            },
            Err(_) => {},
        }
    }
    while i < s.len()
        invariant
            i <= s.len(),
            s.len() > 0,
            parsed_components(s@, globs) == continued(
                out.deep_view(),
                components_from(s@, i as int, globs),
            ),
        decreases s.len() - i,
    {
        let ghost before = out.deep_view();
        match read_component(s, i, globs) {
            Err(e) => {
                return Err(e);
            },
            Ok((c, end)) => {
                out.push(c);
                proof {
                    assert(out.deep_view() =~= before.push(c@));
                    match components_from(s@, end as int, globs) {
                        Ok(rest) => {
                            assert(before + (seq![c@] + rest) =~= before.push(c@) + rest);
                        },
                        Err(_) => {},
                    }
                }
                i = end;
            },
        }
    }
    proof {
        assert(out.deep_view() + Seq::<SourceComponentView>::empty() =~= out.deep_view());
    }
    Ok(out)
}

/// Parses a source pattern.
pub fn parse_source(source: &str) -> (r: Result<SourcePattern, ParseError>)
    ensures
        source_result_view(r) == parsed_source(source@),
        r matches Ok(p) ==> p.wf(),
{
    let chars = chars_of(source);
    match read_components(&chars, true) {
        Ok(components) => {
            proof {
                lemma_parsed_source_is_written(source@);
            }
            Ok(SourcePattern(components))
        },
        Err(e) => Err(e),
    }
}

fn clone_subst(subst: &Subst) -> (r: Subst)
    ensures
        r@ == subst@,
{
    match subst {
        Subst::Named(name) => Subst::Named(name.clone()),
        Subst::Positional => Subst::Positional,
    }
}

/// Parses a target pattern.
pub fn parse_target(target: &str) -> (r: Result<TargetPattern, ParseError>)
    ensures
        target_result_view(r) == parsed_target(target@),
        r matches Ok(p) ==> p.wf(),
{
    let chars = chars_of(target);
    match read_components(&chars, false) {
        Ok(components) => {
            let ghost p = components.deep_view();
            let mut out: Vec<TargetComponent> = Vec::new();
            let mut i: usize = 0;
            while i < components.len()
                invariant
                    i <= components.len(),
                    p == components.deep_view(),
                    out.len() == i,
                    forall|k: int| 0 <= k < i ==> (#[trigger] out[k])@ == p[k].to_target(),
                decreases components.len() - i,
            {
                let c = match &components[i] {
                    SourceComponent::Subst(subst, _) => TargetComponent::Subst(clone_subst(subst)),
                    SourceComponent::Literal(text) => TargetComponent::Literal(text.clone()),
                };
                assert(p[i as int] == components[i as int]@);
                out.push(c);
                i += 1;
            }
            assert(out.deep_view() =~= p.map_values(|c: SourceComponentView| c.to_target()));
            proof {
                lemma_parsed_target_is_written(target@);
            }
            Ok(TargetPattern(out))
        },
        Err(e) => Err(e),
    }
}

/// Parses a source pattern and a target pattern, each on its own.
pub fn parse(source: &str, target: &str) -> (r: (
    Result<SourcePattern, ParseError>,
    Result<TargetPattern, ParseError>,
))
    ensures
        source_result_view(r.0) == parsed_source(source@),
        target_result_view(r.1) == parsed_target(target@),
        r.0 matches Ok(p) ==> p.wf(),
        r.1 matches Ok(p) ==> p.wf(),
{
    (parse_source(source), parse_target(target))
}

} // verus!
