//! The parsed form of a pattern: an ordered sequence of literal text and
//! substitutions. Source and target patterns are distinct types, and only a
//! source substitution carries a glob kind.

use vstd::prelude::*;

verus! {

/// How much of a path a source-side substitution may capture.
#[derive(Debug, Copy, Clone, PartialEq, Eq, PartialOrd, Ord, Hash)]
pub enum Glob {
    /// Stays within one path segment.
    Glob,
    /// May span path segments.
    GlobStar,
}

/// What a substitution is called: by name, or by its position among the
/// unnamed substitutions of its pattern.
#[derive(Debug, Clone, PartialEq, Eq, PartialOrd, Ord, Hash)]
pub enum Subst {
    Named(String),
    Positional,
}

/// One unit of a source pattern.
#[derive(Debug, Clone, PartialEq, Eq, PartialOrd, Ord, Hash)]
pub enum SourceComponent {
    Subst(Subst, Glob),
    Literal(String),
}

/// One unit of a target pattern. A target substitution is a back-reference
/// and has no glob kind.
#[derive(Debug, Clone, PartialEq, Eq, PartialOrd, Ord, Hash)]
pub enum TargetComponent {
    Subst(Subst),
    Literal(String),
}

/// A pattern that is matched against existing paths.
#[derive(Debug, Clone, PartialEq, Eq, PartialOrd, Ord, Hash)]
pub struct SourcePattern(pub Vec<SourceComponent>);

/// A pattern that produces the new path of each match.
#[derive(Debug, Clone, PartialEq, Eq, PartialOrd, Ord, Hash)]
pub struct TargetPattern(pub Vec<TargetComponent>);

/// The mathematical value of a [`Subst`].
pub enum SubstView {
    Named(Seq<char>),
    Positional,
}

/// The mathematical value of a [`SourceComponent`].
pub enum SourceComponentView {
    Subst(SubstView, Glob),
    Literal(Seq<char>),
}

/// The mathematical value of a [`TargetComponent`].
pub enum TargetComponentView {
    Subst(SubstView),
    Literal(Seq<char>),
}

/// An ASCII letter, the only kind of character a substitution's name holds.
pub open spec fn is_letter(c: char) -> bool {
    ('a' <= c && c <= 'z') || ('A' <= c && c <= 'Z')
}

/// `[` or `]`, the two characters that literal text must double.
pub open spec fn is_bracket(c: char) -> bool {
    c == '[' || c == ']'
}

impl Glob {
    /// The fragment of a matching expression that captures this kind.
    pub open spec fn spec_regex_str(self) -> Seq<char> {
        match self {
            Glob::Glob => seq!['[', '^', '/', ']', '*'],
            Glob::GlobStar => seq!['.', '*'],
        }
    }

    /// The fragment of a globbing expression that stands for this kind.
    pub open spec fn spec_glob_str(self) -> Seq<char> {
        match self {
            Glob::Glob => seq!['*'],
            Glob::GlobStar => seq!['*', '*'],
        }
    }

    /// The fragment of a matching expression that captures this kind:
    /// `[^/]*` within one segment, `.*` across segments.
    pub fn regex_str(self) -> (r: &'static str)
        ensures
            r@ == self.spec_regex_str(),
    {
        match self {
            Glob::Glob => {
                proof {
                    reveal_strlit("[^/]*");
                }
                assert("[^/]*"@ =~= seq!['[', '^', '/', ']', '*']);
                "[^/]*"
            },
            Glob::GlobStar => {
                proof {
                    reveal_strlit(".*");
                }
                assert(".*"@ =~= seq!['.', '*']);
                ".*"
            },
        }
    }

    /// The fragment of a globbing expression that stands for this kind:
    /// `*` within one segment, `**` across segments.
    pub fn glob_str(self) -> (r: &'static str)
        ensures
            r@ == self.spec_glob_str(),
    {
        match self {
            Glob::Glob => {
                proof {
                    reveal_strlit("*");
                }
                assert("*"@ =~= seq!['*']);
                "*"
            },
            Glob::GlobStar => {
                proof {
                    reveal_strlit("**");
                }
                assert("**"@ =~= seq!['*', '*']);
                "**"
            },
        }
    }
}

impl View for Subst {
    type V = SubstView;

    open spec fn view(&self) -> SubstView {
        match self {
            Subst::Named(name) => SubstView::Named(name@),
            Subst::Positional => SubstView::Positional,
        }
    }
}

impl DeepView for Subst {
    type V = SubstView;

    open spec fn deep_view(&self) -> SubstView {
        self@
    }
}

impl View for SourceComponent {
    type V = SourceComponentView;

    open spec fn view(&self) -> SourceComponentView {
        match self {
            SourceComponent::Subst(subst, glob) => SourceComponentView::Subst(subst@, *glob),
            SourceComponent::Literal(text) => SourceComponentView::Literal(text@),
        }
    }
}

impl DeepView for SourceComponent {
    type V = SourceComponentView;

    open spec fn deep_view(&self) -> SourceComponentView {
        self@
    }
}

impl View for TargetComponent {
    type V = TargetComponentView;

    open spec fn view(&self) -> TargetComponentView {
        match self {
            TargetComponent::Subst(subst) => TargetComponentView::Subst(subst@),
            TargetComponent::Literal(text) => TargetComponentView::Literal(text@),
        }
    }
}

impl DeepView for TargetComponent {
    type V = TargetComponentView;

    open spec fn deep_view(&self) -> TargetComponentView {
        self@
    }
}

impl View for SourcePattern {
    type V = Seq<SourceComponentView>;

    open spec fn view(&self) -> Seq<SourceComponentView> {
        self.0.deep_view()
    }
}

impl View for TargetPattern {
    type V = Seq<TargetComponentView>;

    open spec fn view(&self) -> Seq<TargetComponentView> {
        self.0.deep_view()
    }
}

impl SubstView {
    /// A name is one or more ASCII letters.
    pub open spec fn wf(self) -> bool {
        match self {
            SubstView::Named(name) => name.len() > 0 && forall|i: int|
                0 <= i < name.len() ==> is_letter(#[trigger] name[i]),
            SubstView::Positional => true,
        }
    }
}

impl SourceComponentView {
    /// A substitution has a well-formed name; literal text is not empty.
    pub open spec fn wf(self) -> bool {
        match self {
            SourceComponentView::Subst(subst, _) => subst.wf(),
            SourceComponentView::Literal(text) => text.len() > 0,
        }
    }

    /// The same component on the target side, where no glob kind exists.
    pub open spec fn to_target(self) -> TargetComponentView {
        match self {
            SourceComponentView::Subst(subst, _) => TargetComponentView::Subst(subst),
            SourceComponentView::Literal(text) => TargetComponentView::Literal(text),
        }
    }
}

impl TargetComponentView {
    /// A substitution has a well-formed name; literal text is not empty.
    pub open spec fn wf(self) -> bool {
        match self {
            TargetComponentView::Subst(subst) => subst.wf(),
            TargetComponentView::Literal(text) => text.len() > 0,
        }
    }

    /// The same component on the source side, a substitution with the glob
    /// kind that a source pattern gives it where it writes none.
    pub open spec fn to_source(self) -> SourceComponentView {
        match self {
            TargetComponentView::Subst(subst) => SourceComponentView::Subst(subst, Glob::Glob),
            TargetComponentView::Literal(text) => SourceComponentView::Literal(text),
        }
    }
}

/// Each component is well formed, and no literal stands directly after
/// another: a run of literal text is one component.
pub open spec fn components_wf(p: Seq<SourceComponentView>) -> bool {
    &&& forall|i: int| 0 <= i < p.len() ==> (#[trigger] p[i]).wf()
    &&& forall|i: int|
        0 <= i < p.len() - 1 ==> !((#[trigger] p[i]) is Literal && p[i + 1] is Literal)
}

/// The form in which the parser builds a source pattern: at least one
/// component, each well formed, and no literal directly after another.
pub open spec fn source_wf(p: Seq<SourceComponentView>) -> bool {
    p.len() > 0 && components_wf(p)
}

/// The form in which the parser builds a target pattern; see [`source_wf`].
pub open spec fn target_wf(p: Seq<TargetComponentView>) -> bool {
    &&& p.len() > 0
    &&& forall|i: int| 0 <= i < p.len() ==> (#[trigger] p[i]).wf()
    &&& forall|i: int|
        0 <= i < p.len() - 1 ==> !((#[trigger] p[i]) is Literal && p[i + 1] is Literal)
}

impl SourcePattern {
    /// Whether this pattern has the form that the parser builds.
    pub open spec fn wf(&self) -> bool {
        source_wf(self@)
    }
}

impl TargetPattern {
    /// Whether this pattern has the form that the parser builds.
    pub open spec fn wf(&self) -> bool {
        target_wf(self@)
    }
}

} // verus!
