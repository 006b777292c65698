//! The grammar, stated by how a pattern is written, and the proof that the
//! parser reads exactly what is written so: writing a well-formed pattern
//! down and parsing it gives the pattern back, and whatever parses is a
//! well-formed pattern written down.

use crate::parse::{
    component_at, components_from, glob_at, lemma_component_advances, lemma_letters_end_bounds,
    lemma_literal_end_bounds, letters_end, literal_char_len, literal_end, literal_text,
    parsed_components, parsed_source, parsed_target, subst_at, subst_id, ParseError,
    ParseErrorKind,
};
use crate::pattern::{
    components_wf, is_bracket, is_letter, source_wf, target_wf, Glob, SourceComponentView,
    SubstView, TargetComponentView,
};
use vstd::prelude::*;

verus! {

/// Literal text as a pattern writes it: each bracket doubled.
pub open spec fn bracket_escaped(text: Seq<char>) -> Seq<char>
    decreases text.len(),
{
    if text.len() == 0 {
        Seq::empty()
    } else if is_bracket(text.first()) {
        seq![text.first(), text.first()] + bracket_escaped(text.drop_first())
    } else {
        seq![text.first()] + bracket_escaped(text.drop_first())
    }
}

/// The name of a substitution as a pattern writes it: nothing for a
/// positional one.
pub open spec fn written_id(id: SubstView) -> Seq<char> {
    match id {
        SubstView::Named(name) => name,
        SubstView::Positional => Seq::empty(),
    }
}

/// A source component as a pattern writes it. The glob kind `Glob` may be
/// written out, as `:*`, or left out; `explicit` says which.
pub open spec fn written(c: SourceComponentView, explicit: bool) -> Seq<char> {
    match c {
        SourceComponentView::Literal(text) => bracket_escaped(text),
        SourceComponentView::Subst(id, Glob::Glob) => if explicit {
            seq!['['] + written_id(id) + seq![':', '*', ']']
        } else {
            seq!['['] + written_id(id) + seq![']']
        },
        SourceComponentView::Subst(id, Glob::GlobStar) => seq!['['] + written_id(id) + seq![
            ':',
            '*',
            '*',
            ']',
        ],
    }
}

/// A source pattern as it is written: its components one after another,
/// `explicit` saying of each whether it writes its glob kind out.
pub open spec fn source_written(p: Seq<SourceComponentView>, explicit: Seq<bool>) -> Seq<char>
    decreases p.len(),
{
    if p.len() == 0 {
        Seq::empty()
    } else {
        written(p.first(), explicit.first()) + source_written(
            p.drop_first(),
            explicit.drop_first(),
        )
    }
}

/// A target component as a pattern writes it.
pub open spec fn target_component_written(c: TargetComponentView) -> Seq<char> {
    match c {
        TargetComponentView::Literal(text) => bracket_escaped(text),
        TargetComponentView::Subst(id) => seq!['['] + written_id(id) + seq![']'],
    }
}

/// A target pattern as it is written: its components one after another.
pub open spec fn target_written(p: Seq<TargetComponentView>) -> Seq<char>
    decreases p.len(),
{
    if p.len() == 0 {
        Seq::empty()
    } else {
        target_component_written(p.first()) + target_written(p.drop_first())
    }
}

// What stands at a position depends only on what follows the position.

proof fn lemma_literal_char_len_skip(s: Seq<char>, d: int, i: int)
    requires
        0 <= d <= s.len(),
        0 <= i,
    ensures
        literal_char_len(s.skip(d), i) == literal_char_len(s, d + i),
{
}

proof fn lemma_literal_end_skip(s: Seq<char>, d: int, i: int)
    requires
        0 <= d <= s.len(),
        0 <= i,
    ensures
        literal_end(s, d + i) == d + literal_end(s.skip(d), i),
    decreases s.len() - d - i,
{
    lemma_literal_char_len_skip(s, d, i);
    let n = literal_char_len(s, d + i);
    if n > 0 {
        lemma_literal_end_skip(s, d, i + n);
    }
}

proof fn lemma_literal_text_skip(s: Seq<char>, d: int, i: int, j: int)
    requires
        0 <= d <= s.len(),
        0 <= i,
    ensures
        literal_text(s, d + i, d + j) == literal_text(s.skip(d), i, j),
    decreases j - i,
{
    lemma_literal_char_len_skip(s, d, i);
    let n = literal_char_len(s, d + i);
    if n > 0 && i + n <= j {
        lemma_literal_text_skip(s, d, i + n, j);
    }
}

proof fn lemma_letters_end_skip(s: Seq<char>, d: int, i: int)
    requires
        0 <= d <= s.len(),
        0 <= i,
    ensures
        letters_end(s, d + i) == d + letters_end(s.skip(d), i),
    decreases s.len() - d - i,
{
    if d + i < s.len() && is_letter(s[d + i]) {
        lemma_letters_end_skip(s, d, i + 1);
    }
}

/// Whether two outcomes at a position agree: both fail, or both give the
/// same value, the second `d` characters further on.
spec fn agree_at<T>(
    inner: Result<(T, int), ParseError>,
    outer: Result<(T, int), ParseError>,
    d: int,
) -> bool {
    match inner {
        Ok((value, end)) => outer == Ok::<(T, int), ParseError>((value, d + end)),
        Err(e) => outer is Err && outer->Err_0.kind == e.kind,
    }
}

proof fn lemma_glob_at_skip(s: Seq<char>, d: int, m: int)
    requires
        0 <= d <= s.len(),
        0 <= m,
    ensures
        agree_at(glob_at(s.skip(d), m), glob_at(s, d + m), d),
{
}

proof fn lemma_subst_at_skip(s: Seq<char>, d: int, i: int, globs: bool)
    requires
        0 <= d <= s.len(),
        0 <= i,
    ensures
        agree_at(subst_at(s.skip(d), i, globs), subst_at(s, d + i, globs), d),
{
    let t = s.skip(d);
    lemma_letters_end_skip(s, d, i + 1);
    lemma_letters_end_bounds(t, if i + 1 <= t.len() { i + 1 } else { t.len() as int });
    let k = letters_end(t, i + 1);
    if i + 1 <= t.len() {
        assert(t.subrange(i + 1, k) =~= s.subrange(d + i + 1, d + k));
    }
    lemma_glob_at_skip(s, d, k + 1);
}

proof fn lemma_component_at_skip(s: Seq<char>, d: int, i: int, globs: bool)
    requires
        0 <= d <= s.len(),
        0 <= i < s.len() - d,
    ensures
        agree_at(component_at(s.skip(d), i, globs), component_at(s, d + i, globs), d),
{
    let t = s.skip(d);
    lemma_literal_char_len_skip(s, d, i);
    lemma_literal_end_skip(s, d, i);
    lemma_literal_text_skip(s, d, i, literal_end(t, i));
    lemma_subst_at_skip(s, d, i, globs);
}

/// Whether what follows a position parses is the same seen from the start
/// of the pattern and seen from the position, and so is what it parses to.
pub proof fn lemma_components_from_skip(s: Seq<char>, d: int, i: int, globs: bool)
    requires
        0 <= d <= s.len(),
        0 <= i,
    ensures
        match components_from(s.skip(d), i, globs) {
            Ok(p) => components_from(s, d + i, globs) == Ok::<
                Seq<SourceComponentView>,
                ParseError,
            >(p),
            Err(e) => components_from(s, d + i, globs) is Err,
        },
    decreases s.len() - d - i,
{
    let t = s.skip(d);
    if i < t.len() {
        lemma_component_at_skip(s, d, i, globs);
        lemma_component_advances(t, i, globs);
        match component_at(t, i, globs) {
            Ok((c, end)) => {
                lemma_components_from_skip(s, d, end, globs);
            },
            Err(_) => {},
        }
    }
}

// Writing, then reading.

/// A run of letters is read to its end.
proof fn lemma_letters_run(s: Seq<char>, i: int, n: int)
    requires
        0 <= i <= n <= s.len(),
        forall|k: int| i <= k < n ==> is_letter(#[trigger] s[k]),
        n < s.len() ==> !is_letter(s[n]),
    ensures
        letters_end(s, i) == n,
    decreases n - i,
{
    if i < n {
        lemma_letters_run(s, i + 1, n);
    }
}

/// Literal text that is written down and followed by something that is no
/// literal character is read back as it was.
proof fn lemma_literal_written_reads(text: Seq<char>, tail: Seq<char>)
    requires
        literal_char_len(bracket_escaped(text) + tail, bracket_escaped(text).len() as int) == 0,
    ensures
        literal_end(bracket_escaped(text) + tail, 0) == bracket_escaped(text).len(),
        literal_text(bracket_escaped(text) + tail, 0, bracket_escaped(text).len() as int)
            == text,
    decreases text.len(),
{
    let s = bracket_escaped(text) + tail;
    if text.len() > 0 {
        let c = text.first();
        let rest = text.drop_first();
        let n: int = if is_bracket(c) {
            2
        } else {
            1
        };
        assert(s[0] == c);
        assert(is_bracket(c) ==> s[1] == c);
        assert(literal_char_len(s, 0) == n);
        assert(s.skip(n) =~= bracket_escaped(rest) + tail);
        lemma_literal_char_len_skip(s, n, bracket_escaped(rest).len() as int);
        lemma_literal_written_reads(rest, tail);
        lemma_literal_end_skip(s, n, 0);
        lemma_literal_text_skip(s, n, 0, bracket_escaped(rest).len() as int);
        assert(seq![c] + rest =~= text);
    }
}

/// What is written for a substitution starts with `[`, and what follows the
/// `[` is no `[`.
proof fn lemma_subst_written_starts(c: SourceComponentView, explicit: bool, tail: Seq<char>)
    requires
        c is Subst,
        c.wf(),
    ensures
        (written(c, explicit) + tail).len() >= 2,
        (written(c, explicit) + tail)[0] == '[',
        (written(c, explicit) + tail)[1] != '[',
        literal_char_len(written(c, explicit) + tail, 0) == 0,
{
    let s = written(c, explicit) + tail;
    let id = c->Subst_0;
    let name = written_id(id);
    if name.len() > 0 {
        assert(s[1] == name[0]);
        assert(is_letter(name[0]));
    }
}

/// A substitution that is written down is read back as it was. On the
/// target side this holds of one that does not write a glob kind.
proof fn lemma_subst_written_reads(
    c: SourceComponentView,
    explicit: bool,
    tail: Seq<char>,
    globs: bool,
)
    requires
        c is Subst,
        c.wf(),
        globs || (c->Subst_1 == Glob::Glob && !explicit),
    ensures
        component_at(written(c, explicit) + tail, 0, globs) == Ok::<
            (SourceComponentView, int),
            ParseError,
        >((c, written(c, explicit).len() as int)),
{
    let w = written(c, explicit);
    let s = w + tail;
    let id = c->Subst_0;
    let name = written_id(id);
    let k: int = 1 + name.len() as int;
    lemma_subst_written_starts(c, explicit, tail);
    assert forall|j: int| 1 <= j < k implies is_letter(#[trigger] s[j]) by {
        assert(s[j] == name[j - 1]);
    }
    assert(s[k] == ']' || s[k] == ':');
    lemma_letters_run(s, 1, k);
    assert(s.subrange(1, k) =~= name);
}

/// What is written for a pattern that starts with a substitution starts like
/// the substitution.
proof fn lemma_written_starts(p: Seq<SourceComponentView>, explicit: Seq<bool>)
    requires
        p.len() > 0,
        p[0] is Subst,
        p[0].wf(),
    ensures
        literal_char_len(source_written(p, explicit), 0) == 0,
        source_written(p, explicit).len() >= 2,
{
    lemma_subst_written_starts(
        p.first(),
        explicit.first(),
        source_written(p.drop_first(), explicit.drop_first()),
    );
}

/// Whether a pattern can be written on the side given by `globs`: on the
/// target side no component writes a glob kind.
spec fn writable(p: Seq<SourceComponentView>, explicit: Seq<bool>, globs: bool) -> bool {
    &&& explicit.len() == p.len()
    &&& components_wf(p)
    &&& !globs ==> forall|i: int|
        0 <= i < p.len() ==> ((#[trigger] p[i]) matches SourceComponentView::Subst(_, glob)
            ==> glob == Glob::Glob && !explicit[i])
}

proof fn lemma_rest_writable(p: Seq<SourceComponentView>, explicit: Seq<bool>, globs: bool)
    requires
        writable(p, explicit, globs),
        p.len() > 0,
    ensures
        writable(p.drop_first(), explicit.drop_first(), globs),
{
    let rest = p.drop_first();
    let rest_explicit = explicit.drop_first();
    assert forall|i: int| 0 <= i < rest.len() implies (#[trigger] rest[i]).wf() by {
        assert(rest[i] == p[i + 1]);
    }
    assert forall|i: int| 0 <= i < rest.len() - 1 implies !((#[trigger] rest[i]) is Literal
        && rest[i + 1] is Literal) by {
        assert(rest[i] == p[i + 1]);
        assert(rest[i + 1] == p[i + 2]);
    }
    if !globs {
        assert forall|i: int| 0 <= i < rest.len() implies ((#[trigger] rest[i]) matches SourceComponentView::Subst(
            _,
            glob,
        ) ==> glob == Glob::Glob && !rest_explicit[i]) by {
            assert(rest[i] == p[i + 1]);
            assert(rest_explicit[i] == explicit[i + 1]);
        }
    }
}

/// The first component of a pattern that is written down is read back as it
/// was.
proof fn lemma_first_written_reads(p: Seq<SourceComponentView>, explicit: Seq<bool>, globs: bool)
    requires
        writable(p, explicit, globs),
        p.len() > 0,
    ensures
        written(p.first(), explicit.first()).len() > 0,
        component_at(source_written(p, explicit), 0, globs) == Ok::<
            (SourceComponentView, int),
            ParseError,
        >((p.first(), written(p.first(), explicit.first()).len() as int)),
{
    let s = source_written(p, explicit);
    let c = p.first();
    let rest = p.drop_first();
    let rest_explicit = explicit.drop_first();
    let w = written(c, explicit.first());
    let tail = source_written(rest, rest_explicit);
    assert(c == p[0]);
    assert(s == w + tail);
    match c {
        SourceComponentView::Literal(text) => {
            lemma_bracket_escaped_len(text);
            assert(literal_char_len(s, w.len() as int) == 0) by {
                if rest.len() > 0 {
                    assert(rest[0] == p[1]);
                    lemma_written_starts(rest, rest_explicit);
                    lemma_literal_char_len_skip(s, w.len() as int, 0);
                    assert(s.skip(w.len() as int) =~= tail);
                } else {
                    assert(tail =~= Seq::empty());
                }
            }
            lemma_literal_written_reads(text, tail);
            assert(literal_char_len(s, 0) > 0) by {
                assert(text.len() > 0);
                assert(s[0] == text.first());
                assert(is_bracket(text.first()) ==> s[1] == text.first());
            }
        },
        SourceComponentView::Subst(_, _) => {
            lemma_subst_written_reads(c, explicit.first(), tail, globs);
        },
    }
}

proof fn lemma_written_parses(p: Seq<SourceComponentView>, explicit: Seq<bool>, globs: bool)
    requires
        writable(p, explicit, globs),
    ensures
        components_from(source_written(p, explicit), 0, globs) == Ok::<
            Seq<SourceComponentView>,
            ParseError,
        >(p),
    decreases p.len(),
{
    let s = source_written(p, explicit);
    if p.len() == 0 {
        assert(p =~= Seq::empty());
    } else {
        let c = p.first();
        let rest = p.drop_first();
        let w = written(c, explicit.first());
        let tail = source_written(rest, explicit.drop_first());
        lemma_rest_writable(p, explicit, globs);
        lemma_written_parses(rest, explicit.drop_first(), globs);
        lemma_first_written_reads(p, explicit, globs);
        assert(s.skip(w.len() as int) =~= tail);
        lemma_components_from_skip(s, w.len() as int, 0, globs);
        assert(seq![c] + rest =~= p);
    }
}

/// What is written for literal text is at least as long as the text.
proof fn lemma_bracket_escaped_len(text: Seq<char>)
    ensures
        bracket_escaped(text).len() >= text.len(),
    decreases text.len(),
{
    if text.len() > 0 {
        lemma_bracket_escaped_len(text.drop_first());
    }
}

// Reading, then writing.

/// A run of literal characters is what is written for the text it is read
/// as.
proof fn lemma_literal_read_is_written(s: Seq<char>, i: int)
    requires
        0 <= i <= s.len(),
    ensures
        bracket_escaped(literal_text(s, i, literal_end(s, i))) == s.subrange(
            i,
            literal_end(s, i),
        ),
        literal_char_len(s, i) > 0 ==> literal_text(s, i, literal_end(s, i)).len() > 0,
    decreases s.len() - i,
{
    let end = literal_end(s, i);
    let n = literal_char_len(s, i);
    lemma_literal_end_bounds(s, i);
    if n > 0 {
        lemma_literal_end_bounds(s, i + n);
        lemma_literal_read_is_written(s, i + n);
        let text = literal_text(s, i, end);
        let rest = literal_text(s, i + n, end);
        assert(text == seq![s[i]] + rest);
        assert(text.first() == s[i]);
        assert(text.drop_first() =~= rest);
        assert(s.subrange(i, end) =~= s.subrange(i, i + n) + s.subrange(i + n, end));
        if is_bracket(s[i]) {
            assert(s.subrange(i, i + n) =~= seq![s[i], s[i]]);
        } else {
            assert(s.subrange(i, i + n) =~= seq![s[i]]);
        }
    } else {
        assert(s.subrange(i, end) =~= Seq::empty());
    }
}

/// A substitution that is read is well formed, and what it was read from is
/// what is written for it, with or without its glob kind written out.
proof fn lemma_subst_read_is_written(s: Seq<char>, i: int, globs: bool) -> (explicit: bool)
    requires
        0 <= i < s.len(),
        s[i] == '[',
        subst_at(s, i, globs) is Ok,
    ensures
        ({
            let (c, end) = subst_at(s, i, globs)->Ok_0;
            &&& c is Subst
            &&& c.wf()
            &&& i < end <= s.len()
            &&& written(c, explicit) == s.subrange(i, end)
            &&& !globs ==> c->Subst_1 == Glob::Glob && !explicit
        }),
{
    let k = letters_end(s, i + 1);
    lemma_letters_end_bounds(s, i + 1);
    let (c, end) = subst_at(s, i, globs)->Ok_0;
    let id = subst_id(s, i + 1, k);
    let explicit = s[k] == ':' && c->Subst_1 == Glob::Glob;
    assert(written_id(id) =~= s.subrange(i + 1, k));
    if s[k] == ']' {
        assert(written(c, explicit) =~= s.subrange(i, end));
    } else {
        assert(s[k] == ':');
        assert(written(c, explicit) =~= s.subrange(i, end));
    }
    explicit
}

/// Whatever parses is a well-formed pattern, and is what is written for that
/// pattern, each glob kind written out or not.
proof fn lemma_read_is_written(s: Seq<char>, i: int, globs: bool) -> (explicit: Seq<bool>)
    requires
        0 <= i <= s.len(),
        components_from(s, i, globs) is Ok,
    ensures
        writable(components_from(s, i, globs)->Ok_0, explicit, globs),
        source_written(components_from(s, i, globs)->Ok_0, explicit) == s.skip(i),
        literal_char_len(s, i) == 0 && components_from(s, i, globs)->Ok_0.len() > 0
            ==> components_from(s, i, globs)->Ok_0[0] is Subst,
        i < s.len() ==> components_from(s, i, globs)->Ok_0.len() > 0,
    decreases s.len() - i,
{
    let p = components_from(s, i, globs)->Ok_0;
    if i >= s.len() {
        assert(s.skip(i) =~= Seq::empty());
        Seq::empty()
    } else {
        lemma_component_advances(s, i, globs);
        let (c, end) = component_at(s, i, globs)->Ok_0;
        let rest = components_from(s, end, globs)->Ok_0;
        assert(p == seq![c] + rest);
        let rest_explicit = lemma_read_is_written(s, end, globs);
        let first_explicit = if literal_char_len(s, i) > 0 {
            lemma_literal_read_is_written(s, i);
            lemma_literal_end_bounds(s, i);
            false
        } else {
            lemma_subst_read_is_written(s, i, globs)
        };
        let explicit = seq![first_explicit] + rest_explicit;
        assert(written(c, first_explicit) == s.subrange(i, end));
        assert(c.wf());
        assert(p.first() == c);
        assert(p.drop_first() =~= rest);
        assert(explicit.first() == first_explicit);
        assert(explicit.drop_first() =~= rest_explicit);
        assert(s.subrange(i, end) + s.skip(end) =~= s.skip(i));
        assert forall|j: int| 0 <= j < p.len() implies (#[trigger] p[j]).wf() by {
            if j > 0 {
                assert(p[j] == rest[j - 1]);
            }
        }
        assert forall|j: int| 0 <= j < p.len() - 1 implies !((#[trigger] p[j]) is Literal && p[j
            + 1] is Literal) by {
            if j > 0 {
                assert(p[j] == rest[j - 1]);
                assert(p[j + 1] == rest[j]);
            } else {
                assert(p[1] == rest[0]);
            }
        }
        if !globs {
            assert forall|j: int| 0 <= j < p.len() implies ((#[trigger] p[j]) matches SourceComponentView::Subst(
                _,
                glob,
            ) ==> glob == Glob::Glob && !explicit[j]) by {
                if j > 0 {
                    assert(p[j] == rest[j - 1]);
                    assert(explicit[j] == rest_explicit[j - 1]);
                }
            }
        }
        explicit
    }
}

// The two sides.

/// A target pattern seen as a source pattern that writes no glob kind.
pub open spec fn as_source(p: Seq<TargetComponentView>) -> Seq<SourceComponentView> {
    p.map_values(|c: TargetComponentView| c.to_source())
}

/// A source pattern seen as a target pattern.
spec fn as_target(p: Seq<SourceComponentView>) -> Seq<TargetComponentView> {
    p.map_values(|c: SourceComponentView| c.to_target())
}

/// For each of `n` components, that it writes no glob kind.
spec fn none_explicit(n: nat) -> Seq<bool> {
    Seq::new(n, |i: int| false)
}

proof fn lemma_target_written_as_source(p: Seq<SourceComponentView>, explicit: Seq<bool>)
    requires
        writable(p, explicit, false),
    ensures
        target_written(as_target(p)) == source_written(p, explicit),
    decreases p.len(),
{
    if p.len() > 0 {
        lemma_rest_writable(p, explicit, false);
        lemma_target_written_as_source(p.drop_first(), explicit.drop_first());
        assert(as_target(p).drop_first() =~= as_target(p.drop_first()));
        assert(as_target(p).first() == p[0].to_target());
    }
}

// The laws.

/// Writing a well-formed source pattern down and parsing what was written
/// gives the pattern back, whichever of its substitutions write the glob
/// kind `Glob` out as `:*` and whichever leave it out.
pub proof fn lemma_source_round_trip(p: Seq<SourceComponentView>, explicit: Seq<bool>)
    requires
        source_wf(p),
        explicit.len() == p.len(),
    ensures
        parsed_source(source_written(p, explicit)) == Ok::<Seq<SourceComponentView>, ParseError>(
            p,
        ),
{
    lemma_written_parses(p, explicit, true);
    lemma_first_written_reads(p, explicit, true);
}

/// Writing a well-formed target pattern down and parsing what was written
/// gives the pattern back.
pub proof fn lemma_target_round_trip(p: Seq<TargetComponentView>)
    requires
        target_wf(p),
    ensures
        parsed_target(target_written(p)) == Ok::<Seq<TargetComponentView>, ParseError>(p),
{
    let q = as_source(p);
    let explicit = none_explicit(p.len());
    assert forall|i: int| 0 <= i < q.len() implies (#[trigger] q[i]).wf() by {
        assert(p[i].wf());
    }
    assert forall|i: int| 0 <= i < q.len() - 1 implies !((#[trigger] q[i]) is Literal && q[i
        + 1] is Literal) by {
        assert(!(p[i] is Literal && p[i + 1] is Literal));
    }
    assert(writable(q, explicit, false));
    lemma_written_parses(q, explicit, false);
    lemma_first_written_reads(q, explicit, false);
    lemma_target_written_as_source(q, explicit);
    assert(as_target(q) =~= p);
}

/// A source pattern that parses is well formed, and the string that was
/// parsed is the pattern written down, each glob kind `Glob` written out or
/// left out as `explicit` says. With the round trip this makes the patterns
/// that parse exactly the well-formed patterns written down, each string
/// with one reading.
pub proof fn lemma_parsed_source_is_written(s: Seq<char>) -> (explicit: Seq<bool>)
    requires
        parsed_source(s) is Ok,
    ensures
        source_wf(parsed_source(s)->Ok_0),
        explicit.len() == parsed_source(s)->Ok_0.len(),
        source_written(parsed_source(s)->Ok_0, explicit) == s,
{
    let explicit = lemma_read_is_written(s, 0, true);
    assert(s.skip(0) =~= s);
    explicit
}

/// A target pattern that parses is well formed, and the string that was
/// parsed is the pattern written down.
pub proof fn lemma_parsed_target_is_written(s: Seq<char>)
    requires
        parsed_target(s) is Ok,
    ensures
        target_wf(parsed_target(s)->Ok_0),
        target_written(parsed_target(s)->Ok_0) == s,
{
    let p = parsed_components(s, false)->Ok_0;
    let t = parsed_target(s)->Ok_0;
    let explicit = lemma_read_is_written(s, 0, false);
    assert(s.skip(0) =~= s);
    lemma_target_written_as_source(p, explicit);
    assert(t == as_target(p));
    assert forall|i: int| 0 <= i < t.len() implies (#[trigger] t[i]).wf() by {
        assert(p[i].wf());
    }
    assert forall|i: int| 0 <= i < t.len() - 1 implies !((#[trigger] t[i]) is Literal && t[i
        + 1] is Literal) by {
        assert(!(p[i] is Literal && p[i + 1] is Literal));
    }
}

/// Literal text with each of its brackets doubled is a pattern, on either
/// side, and the pattern is the one literal component that holds the text.
pub proof fn lemma_literal_escaping(text: Seq<char>)
    requires
        text.len() > 0,
    ensures
        parsed_source(bracket_escaped(text)) == Ok::<Seq<SourceComponentView>, ParseError>(
            seq![SourceComponentView::Literal(text)],
        ),
        parsed_target(bracket_escaped(text)) == Ok::<Seq<TargetComponentView>, ParseError>(
            seq![TargetComponentView::Literal(text)],
        ),
{
    let p = seq![SourceComponentView::Literal(text)];
    let t = seq![TargetComponentView::Literal(text)];
    let explicit = seq![false];
    assert(source_written(p, explicit) =~= bracket_escaped(text)) by {
        assert(p.drop_first() =~= Seq::empty());
        assert(source_written(p.drop_first(), explicit.drop_first()) =~= Seq::empty());
    }
    assert(target_written(t) =~= bracket_escaped(text)) by {
        assert(t.drop_first() =~= Seq::empty());
        assert(target_written(t.drop_first()) =~= Seq::empty());
    }
    lemma_source_round_trip(p, explicit);
    lemma_target_round_trip(t);
}

/// A target pattern parses exactly where the same string parses as a source
/// pattern that writes no glob kind out, and to the same components. Where
/// only the source side takes it, the target side fails with
/// `GlobInTarget`.
pub proof fn lemma_target_takes_no_glob(s: Seq<char>)
    ensures
        parsed_target(s) matches Ok(t) ==> parsed_source(s) == Ok::<
            Seq<SourceComponentView>,
            ParseError,
        >(as_source(t)),
        parsed_source(s) is Ok && parsed_target(s) is Err ==> parsed_target(s)->Err_0.kind
            == ParseErrorKind::GlobInTarget,
{
    lemma_sides_agree(s, 0);
    if parsed_target(s) is Ok {
        let p = parsed_components(s, false)->Ok_0;
        let explicit = lemma_read_is_written(s, 0, false);
        assert(as_source(as_target(p)) =~= p) by {
            assert forall|i: int| 0 <= i < p.len() implies as_source(as_target(p))[i] == p[i] by {
                assert(p[i] matches SourceComponentView::Subst(_, glob) ==> glob == Glob::Glob);
            }
        }
    }
}

/// From any position on, the target side reads what the source side reads,
/// up to the first `:` in a substitution, where it fails.
proof fn lemma_sides_agree(s: Seq<char>, i: int)
    requires
        0 <= i <= s.len(),
    ensures
        match components_from(s, i, false) {
            Ok(p) => components_from(s, i, true) == Ok::<Seq<SourceComponentView>, ParseError>(
                p,
            ),
            Err(e) => components_from(s, i, true) is Ok ==> e.kind
                == ParseErrorKind::GlobInTarget,
        },
    decreases s.len() - i,
{
    if i < s.len() {
        lemma_component_advances(s, i, false);
        lemma_component_advances(s, i, true);
        match component_at(s, i, false) {
            Ok((c, end)) => {
                assert(component_at(s, i, true) == Ok::<(SourceComponentView, int), ParseError>(
                    (c, end),
                ));
                lemma_sides_agree(s, end);
            },
            Err(e) => {
                if component_at(s, i, true) is Ok {
                    assert(e.kind == ParseErrorKind::GlobInTarget);
                }
            },
        }
    }
}

} // verus!
