//! The pattern compiler: from a parsed source pattern to a matching
//! expression and a globbing expression, and from a parsed target pattern to
//! a replacement template. All three are plain strings, and compiling cannot
//! fail.

use crate::pattern::{
    Glob, SourceComponent, SourceComponentView, SourcePattern, Subst, SubstView, TargetComponent,
    TargetComponentView, TargetPattern,
};
use crate::text::{decimal, push_decimal};
use crate::trusted::{
    glob_escape, glob_escaped, is_regex_meta, push_char, regex_escape, regex_escaped,
};
use vstd::prelude::*;

verus! {

/// What one source component contributes to the matching expression: a
/// capturing group around the fragment of its glob kind, named where the
/// substitution is, or the literal text with its meta characters escaped.
pub open spec fn match_piece(c: SourceComponentView) -> Seq<char> {
    match c {
        SourceComponentView::Subst(SubstView::Named(name), glob) => seq!['(', '?', 'P', '<']
            + name + seq!['>'] + glob.spec_regex_str() + seq![')'],
        SourceComponentView::Subst(SubstView::Positional, glob) => seq!['(']
            + glob.spec_regex_str() + seq![')'],
        SourceComponentView::Literal(text) => regex_escaped(text),
    }
}

/// The pieces of the components, one after another.
pub open spec fn match_body(p: Seq<SourceComponentView>) -> Seq<char>
    decreases p.len(),
{
    if p.len() == 0 {
        Seq::empty()
    } else {
        match_body(p.drop_last()) + match_piece(p.last())
    }
}

/// The matching expression of a source pattern: the pieces of its components
/// between the anchors for the start and the end of the string.
pub open spec fn match_expr(p: Seq<SourceComponentView>) -> Seq<char> {
    seq!['^'] + match_body(p) + seq!['$']
}

/// What one source component contributes to the globbing expression: the
/// fragment of its glob kind, or the literal text with its meta characters
/// escaped.
pub open spec fn glob_piece(c: SourceComponentView) -> Seq<char> {
    match c {
        SourceComponentView::Subst(_, glob) => glob.spec_glob_str(),
        SourceComponentView::Literal(text) => glob_escaped(text),
    }
}

/// The globbing expression of a source pattern: the pieces of its components,
/// one after another.
pub open spec fn glob_expr(p: Seq<SourceComponentView>) -> Seq<char>
    decreases p.len(),
{
    if p.len() == 0 {
        Seq::empty()
    } else {
        glob_expr(p.drop_last()) + glob_piece(p.last())
    }
}

/// `text` with each `$` doubled, so that a template gives it back unchanged.
pub open spec fn template_escaped(text: Seq<char>) -> Seq<char>
    decreases text.len(),
{
    if text.len() == 0 {
        Seq::empty()
    } else if text.last() == '$' {
        template_escaped(text.drop_last()).push('$').push('$')
    } else {
        template_escaped(text.drop_last()).push(text.last())
    }
}

/// Whether a target component is a positional substitution.
pub open spec fn is_positional(c: TargetComponentView) -> bool {
    c == TargetComponentView::Subst(SubstView::Positional)
}

/// How many positional substitutions a target pattern holds.
pub open spec fn positionals(p: Seq<TargetComponentView>) -> nat
    decreases p.len(),
{
    if p.len() == 0 {
        0
    } else if is_positional(p.last()) {
        positionals(p.drop_last()) + 1
    } else {
        positionals(p.drop_last())
    }
}

/// The number by which component `i` refers to a capture, if it is a
/// positional substitution: one more than the positional substitutions before
/// it. Named substitutions and literals take no number.
pub open spec fn positional_number(p: Seq<TargetComponentView>, i: int) -> nat {
    positionals(p.take(i)) + 1
}

/// A back-reference to the capture of the given name or number.
pub open spec fn back_reference(to: Seq<char>) -> Seq<char> {
    seq!['$', '{'] + to + seq!['}']
}

/// What a target component contributes to the template, `number` being the
/// number it has if it is positional.
pub open spec fn template_piece(c: TargetComponentView, number: nat) -> Seq<char> {
    match c {
        TargetComponentView::Subst(SubstView::Named(name)) => back_reference(name),
        TargetComponentView::Subst(SubstView::Positional) => back_reference(decimal(number)),
        TargetComponentView::Literal(text) => template_escaped(text),
    }
}

/// The replacement template of a target pattern: the pieces of its
/// components, one after another, the positional substitutions numbered from
/// 1 in the order in which they stand.
pub open spec fn template(p: Seq<TargetComponentView>) -> Seq<char>
    decreases p.len(),
{
    if p.len() == 0 {
        Seq::empty()
    } else {
        template(p.drop_last()) + template_piece(p.last(), positionals(p.drop_last()) + 1)
    }
}

/// Doubles each `$` of a literal text: every special sequence of a
/// replacement template starts with `$`, and `$$` stands for the character
/// itself.
pub fn escape_regex_replacement(s: &str) -> (r: String)
    ensures
        r@ == template_escaped(s@),
{
    let mut out = String::new();
    for c in it: s.chars()
        invariant
            it.seq() == s@,
            out@ == template_escaped(it.seq().take(it.index() as int)),
    {
        assert(it.seq().take(it.index() + 1).drop_last() =~= it.seq().take(it.index() as int));
        if c == '$' {
            push_char(&mut out, '$');
        }
        push_char(&mut out, c);
    }
    assert(s@.take(s@.len() as int) =~= s@);
    out
}

impl SourcePattern {
    /// The matching expression: a regular expression with one capturing
    /// group for each substitution, anchored at both ends. Names are copied
    /// as they are; whether two substitutions share one is not looked at.
    pub fn regex(&self) -> (r: String)
        ensures
            r@ == match_expr(self@),
    {
        let ghost p = self@;
        let mut out = String::new();
        push_char(&mut out, '^');
        let mut i: usize = 0;
        assert(out@ =~= seq!['^'] + match_body(p.take(0)));
        while i < self.0.len()
            invariant
                i <= self.0.len(),
                p == self@,
                out@ == seq!['^'] + match_body(p.take(i as int)),
            decreases self.0.len() - i,
        {
            let ghost before = out@;
            proof {
                assert(p.take(i + 1).drop_last() =~= p.take(i as int));
                assert(p.take(i + 1).last() == self.0[i as int]@);
                reveal_strlit("(?P<");
                reveal_strlit(">");
                reveal_strlit("(");
                reveal_strlit(")");
            }
            match &self.0[i] {
                SourceComponent::Subst(Subst::Named(name), glob) => {
                    out.append("(?P<");
                    out.append(name.as_str());
                    out.append(">");
                    out.append(glob.regex_str());
                    out.append(")");
                    assert(out@ =~= before + (seq!['(', '?', 'P', '<'] + name@ + seq!['>']
                        + glob.spec_regex_str() + seq![')']));
                },
                SourceComponent::Subst(Subst::Positional, glob) => {
                    out.append("(");
                    out.append(glob.regex_str());
                    out.append(")");
                    assert(out@ =~= before + (seq!['('] + glob.spec_regex_str() + seq![')']));
                },
                SourceComponent::Literal(text) => {
                    let escaped = regex_escape(text.as_str());
                    out.append(escaped.as_str());
                },
            }
            assert(out@ =~= seq!['^'] + match_body(p.take(i + 1)));
            i += 1;
        }
        assert(p.take(self.0.len() as int) =~= p);
        push_char(&mut out, '$');
        assert(out@ =~= match_expr(p));
        out
    }

    /// The globbing expression: what a directory scan is asked for to find
    /// the paths that the matching expression can match.
    pub fn glob(&self) -> (r: String)
        ensures
            r@ == glob_expr(self@),
    {
        let ghost p = self@;
        let mut out = String::new();
        let mut i: usize = 0;
        assert(out@ =~= glob_expr(p.take(0)));
        while i < self.0.len()
            invariant
                i <= self.0.len(),
                p == self@,
                out@ == glob_expr(p.take(i as int)),
            decreases self.0.len() - i,
        {
            proof {
                assert(p.take(i + 1).drop_last() =~= p.take(i as int));
                assert(p.take(i + 1).last() == self.0[i as int]@);
            }
            match &self.0[i] {
                SourceComponent::Subst(_, glob) => {
                    out.append(glob.glob_str());
                },
                SourceComponent::Literal(text) => {
                    let escaped = glob_escape(text.as_str());
                    out.append(escaped.as_str());
                },
            }
            i += 1;
        }
        assert(p.take(self.0.len() as int) =~= p);
        out
    }
}

impl TargetPattern {
    /// The replacement template: a back-reference for each substitution, by
    /// name or by number, and the literal text with each `$` doubled.
    pub fn rep(&self) -> (r: String)
        ensures
            r@ == template(self@),
    {
        let ghost p = self@;
        let mut out = String::new();
        let mut seen: usize = 0;
        let mut i: usize = 0;
        assert(out@ =~= template(p.take(0)));
        while i < self.0.len()
            invariant
                i <= self.0.len(),
                p == self@,
                seen == positionals(p.take(i as int)),
                seen <= i,
                out@ == template(p.take(i as int)),
            decreases self.0.len() - i,
        {
            let ghost before = out@;
            proof {
                assert(p.take(i + 1).drop_last() =~= p.take(i as int));
                assert(p.take(i + 1).last() == self.0[i as int]@);
                reveal_strlit("${");
                reveal_strlit("}");
            }
            match &self.0[i] {
                TargetComponent::Subst(Subst::Named(name)) => {
                    out.append("${");
                    out.append(name.as_str());
                    out.append("}");
                    assert(out@ =~= before + back_reference(name@));
                },
                TargetComponent::Subst(Subst::Positional) => {
                    out.append("${");
                    push_decimal(&mut out, seen + 1);
                    out.append("}");
                    assert(out@ =~= before + back_reference(decimal((seen + 1) as nat)));
                    seen += 1;
                },
                TargetComponent::Literal(text) => {
                    let escaped = escape_regex_replacement(text.as_str());
                    out.append(escaped.as_str());
                },
            }
            i += 1;
        }
        assert(p.take(self.0.len() as int) =~= p);
        out
    }
}

// How positional substitutions are numbered.

proof fn lemma_positionals_add(a: Seq<TargetComponentView>, b: Seq<TargetComponentView>)
    ensures
        positionals(a + b) == positionals(a) + positionals(b),
    decreases b.len(),
{
    if b.len() == 0 {
        assert(a + b =~= a);
    } else {
        lemma_positionals_add(a, b.drop_last());
        assert((a + b).drop_last() =~= a + b.drop_last());
        assert((a + b).last() == b.last());
    }
}

proof fn lemma_positionals_none(p: Seq<TargetComponentView>)
    requires
        forall|k: int| 0 <= k < p.len() ==> !is_positional(#[trigger] p[k]),
    ensures
        positionals(p) == 0,
    decreases p.len(),
{
    if p.len() > 0 {
        assert(!is_positional(p[p.len() - 1]));
        assert forall|k: int| 0 <= k < p.drop_last().len() implies !is_positional(
            #[trigger] p.drop_last()[k],
        ) by {
            assert(p.drop_last()[k] == p[k]);
        }
        lemma_positionals_none(p.drop_last());
    }
}

proof fn lemma_positionals_all(p: Seq<TargetComponentView>)
    requires
        forall|k: int| 0 <= k < p.len() ==> is_positional(#[trigger] p[k]),
    ensures
        positionals(p) == p.len(),
    decreases p.len(),
{
    if p.len() > 0 {
        assert(is_positional(p[p.len() - 1]));
        assert forall|k: int| 0 <= k < p.drop_last().len() implies is_positional(
            #[trigger] p.drop_last()[k],
        ) by {
            assert(p.drop_last()[k] == p[k]);
        }
        lemma_positionals_all(p.drop_last());
    }
}

/// The template is built component by component, and component `i` enters
/// it with the number [`positional_number`] gives it.
pub proof fn lemma_template_step(p: Seq<TargetComponentView>, i: int)
    requires
        0 <= i < p.len(),
    ensures
        template(p.take(i + 1)) == template(p.take(i)) + template_piece(
            p[i],
            positional_number(p, i),
        ),
{
    assert(p.take(i + 1).drop_last() =~= p.take(i));
    assert(p.take(i + 1).last() == p[i]);
}

/// Positional substitutions are numbered from left to right, starting at 1:
/// the first has the number 1, a later one a higher number than an earlier
/// one, and the next one exactly one more.
pub proof fn lemma_positional_numbering(p: Seq<TargetComponentView>, i: int, j: int)
    requires
        0 <= i < j < p.len(),
        is_positional(p[i]),
        is_positional(p[j]),
    ensures
        1 <= positional_number(p, i) < positional_number(p, j),
        (forall|k: int| 0 <= k < i ==> !is_positional(#[trigger] p[k])) ==> positional_number(p, i)
            == 1,
        (forall|k: int| i < k < j ==> !is_positional(#[trigger] p[k])) ==> positional_number(p, j)
            == positional_number(p, i) + 1,
{
    let between = p.subrange(i + 1, j);
    assert(p.take(j) =~= p.take(i + 1) + between);
    lemma_positionals_add(p.take(i + 1), between);
    assert(p.take(i + 1).drop_last() =~= p.take(i));
    assert(p.take(i + 1).last() == p[i]);
    if forall|k: int| 0 <= k < i ==> !is_positional(#[trigger] p[k]) {
        assert forall|k: int| 0 <= k < p.take(i).len() implies !is_positional(
            #[trigger] p.take(i)[k],
        ) by {
            assert(p.take(i)[k] == p[k]);
        }
        lemma_positionals_none(p.take(i));
    }
    if forall|k: int| i < k < j ==> !is_positional(#[trigger] p[k]) {
        assert forall|k: int| 0 <= k < between.len() implies !is_positional(
            #[trigger] between[k],
        ) by {
            assert(between[k] == p[i + 1 + k]);
        }
        lemma_positionals_none(between);
    }
}

/// In a target pattern of positional substitutions only, each has its place
/// in the pattern, counted from 1, as its number.
pub proof fn lemma_all_positional(p: Seq<TargetComponentView>, i: int)
    requires
        0 <= i < p.len(),
        forall|k: int| 0 <= k < p.len() ==> is_positional(#[trigger] p[k]),
    ensures
        positional_number(p, i) == i + 1,
{
    assert forall|k: int| 0 <= k < p.take(i).len() implies is_positional(#[trigger] p.take(i)[k]) by {
        assert(p.take(i)[k] == p[k]);
    }
    lemma_positionals_all(p.take(i));
}

/// A component that is no positional substitution takes no number: put into
/// a target pattern at any place, it leaves every other component the number
/// it had.
pub proof fn lemma_others_take_no_number(
    p: Seq<TargetComponentView>,
    at: int,
    c: TargetComponentView,
    i: int,
)
    requires
        0 <= at <= p.len(),
        !is_positional(c),
        0 <= i < p.len(),
    ensures
        positional_number(p.insert(at, c), if i < at { i } else { i + 1 }) == positional_number(
            p,
            i,
        ),
{
    let q = p.insert(at, c);
    if i < at {
        assert(q.take(i) =~= p.take(i));
    } else {
        let head = p.take(at);
        let tail = p.subrange(at, i);
        assert(q.take(i + 1) =~= (head + seq![c]) + tail);
        assert(p.take(i) =~= head + tail);
        lemma_positionals_add(head + seq![c], tail);
        lemma_positionals_add(head, seq![c]);
        lemma_positionals_add(head, tail);
        assert(seq![c].drop_last() =~= Seq::empty());
        assert(positionals(seq![c]) == 0) by {
            assert(seq![c].last() == c);
            assert(positionals(seq![c].drop_last()) == 0);
        }
    }
}

// How literal text is escaped in a matching expression.

/// Whether a text is made of characters that mean nothing in a regular
/// expression and of meta characters with a backslash before each.
pub open spec fn is_escaped_literal(e: Seq<char>) -> bool
    decreases e.len(),
{
    if e.len() == 0 {
        true
    } else if e.first() == '\\' {
        e.len() >= 2 && is_regex_meta(e[1]) && is_escaped_literal(e.skip(2))
    } else {
        !is_regex_meta(e.first()) && is_escaped_literal(e.skip(1))
    }
}

/// A text without the backslashes that escape: after a backslash the next
/// character is taken as it is.
pub open spec fn regex_unescaped(e: Seq<char>) -> Seq<char>
    decreases e.len(),
{
    if e.len() == 0 {
        Seq::empty()
    } else if e.first() == '\\' && e.len() >= 2 {
        seq![e[1]] + regex_unescaped(e.skip(2))
    } else {
        seq![e.first()] + regex_unescaped(e.skip(1))
    }
}

proof fn lemma_regex_escaped_front(text: Seq<char>)
    requires
        text.len() > 0,
    ensures
        regex_escaped(text) == (if is_regex_meta(text.first()) {
            seq!['\\', text.first()]
        } else {
            seq![text.first()]
        }) + regex_escaped(text.drop_first()),
    decreases text.len(),
{
    if text.len() == 1 {
        assert(text.drop_last() =~= Seq::empty());
        assert(text.drop_first() =~= Seq::empty());
        assert(regex_escaped(text.drop_last()) =~= Seq::empty());
        assert(text.last() == text.first());
        assert(regex_escaped(text) =~= (if is_regex_meta(text.first()) {
            seq!['\\', text.first()]
        } else {
            seq![text.first()]
        }) + regex_escaped(text.drop_first()));
    } else {
        lemma_regex_escaped_front(text.drop_last());
        assert(text.drop_last().drop_first() =~= text.drop_first().drop_last());
        assert(text.drop_last().first() == text.first());
        assert(text.drop_first().last() == text.last());
        assert(regex_escaped(text) =~= (if is_regex_meta(text.first()) {
            seq!['\\', text.first()]
        } else {
            seq![text.first()]
        }) + regex_escaped(text.drop_first()));
    }
}

/// In the matching expression, literal text is escaped so that nothing of it
/// is left with a meaning of its own: what stands for it is made of
/// characters that mean nothing in a regular expression and of meta
/// characters with a backslash before each, and without those backslashes
/// it is the text again.
pub proof fn lemma_literal_is_escaped(text: Seq<char>)
    ensures
        is_escaped_literal(regex_escaped(text)),
        regex_unescaped(regex_escaped(text)) == text,
        match_piece(SourceComponentView::Literal(text)) == regex_escaped(text),
    decreases text.len(),
{
    if text.len() > 0 {
        let c = text.first();
        let rest = text.drop_first();
        let e = regex_escaped(text);
        lemma_regex_escaped_front(text);
        lemma_literal_is_escaped(rest);
        if is_regex_meta(c) {
            assert(e.skip(2) =~= regex_escaped(rest));
            assert(e.first() == '\\');
            assert(e[1] == c);
        } else {
            assert(e.skip(1) =~= regex_escaped(rest));
            assert(e.first() == c);
        }
        assert(seq![c] + rest =~= text);
    }
}

} // verus!
