//! The rename planner: from the candidates that matched, each with the
//! canonical form of its two sides, to the list of renames and the hazards
//! found in it.

use vstd::prelude::*;

verus! {

/// One candidate that matched: the path as it was given, the destination that
/// the template produced for it, and the canonical form of each, `None` where
/// the filesystem could not resolve it.
#[derive(Debug, Clone, PartialEq, Eq)]
pub struct Attempt {
    pub source: String,
    pub target: String,
    pub canonical_source: Option<String>,
    pub canonical_target: Option<String>,
}

/// One proposed rename. The canonical paths serve the safety checks, the
/// display paths are what the user wrote and what the template made of it.
#[derive(Debug, Clone, PartialEq, Eq)]
pub struct PlanEntry {
    pub canonical_source: String,
    pub canonical_target: String,
    pub display_source: String,
    pub display_target: String,
}

/// The hazards of a plan. Each conflict names the canonical path of the first
/// entry, in input order, that is involved in it.
#[derive(Debug, Clone, PartialEq, Eq)]
pub struct IssueSet {
    /// Nothing is left to rename.
    pub no_matches: bool,
    /// A canonical source that more than one entry moves away.
    pub duplicate_source: Option<String>,
    /// A canonical target that more than one entry moves onto.
    pub duplicate_target: Option<String>,
    /// A canonical path that one entry moves away and an entry moves onto.
    pub source_equals_target_path: Option<String>,
}

/// The two sides of a rename.
#[derive(Debug, Copy, Clone, PartialEq, Eq)]
pub enum Side {
    Source,
    Target,
}

/// The mathematical value of an [`Attempt`].
pub struct AttemptView {
    pub source: Seq<char>,
    pub target: Seq<char>,
    pub canonical_source: Option<Seq<char>>,
    pub canonical_target: Option<Seq<char>>,
}

/// The mathematical value of a [`PlanEntry`].
pub struct PlanEntryView {
    pub canonical_source: Seq<char>,
    pub canonical_target: Seq<char>,
    pub display_source: Seq<char>,
    pub display_target: Seq<char>,
}

/// The mathematical value of an [`IssueSet`].
pub struct IssueSetView {
    pub no_matches: bool,
    pub duplicate_source: Option<Seq<char>>,
    pub duplicate_target: Option<Seq<char>>,
    pub source_equals_target_path: Option<Seq<char>>,
}

impl View for Attempt {
    type V = AttemptView;

    open spec fn view(&self) -> AttemptView {
        AttemptView {
            source: self.source@,
            target: self.target@,
            canonical_source: self.canonical_source.deep_view(),
            canonical_target: self.canonical_target.deep_view(),
        }
    }
}

impl DeepView for Attempt {
    type V = AttemptView;

    open spec fn deep_view(&self) -> AttemptView {
        self@
    }
}

impl View for PlanEntry {
    type V = PlanEntryView;

    open spec fn view(&self) -> PlanEntryView {
        PlanEntryView {
            canonical_source: self.canonical_source@,
            canonical_target: self.canonical_target@,
            display_source: self.display_source@,
            display_target: self.display_target@,
        }
    }
}

impl DeepView for PlanEntry {
    type V = PlanEntryView;

    open spec fn deep_view(&self) -> PlanEntryView {
        self@
    }
}

impl View for IssueSet {
    type V = IssueSetView;

    open spec fn view(&self) -> IssueSetView {
        IssueSetView {
            no_matches: self.no_matches,
            duplicate_source: self.duplicate_source.deep_view(),
            duplicate_target: self.duplicate_target.deep_view(),
            source_equals_target_path: self.source_equals_target_path.deep_view(),
        }
    }
}

impl AttemptView {
    /// The entry that this attempt contributes to the plan: none where a side
    /// could not be resolved, and none where both sides are the same file.
    pub open spec fn entry(self) -> Option<PlanEntryView> {
        match (self.canonical_source, self.canonical_target) {
            (Some(cs), Some(ct)) => if cs == ct {
                None
            } else {
                Some(
                    PlanEntryView {
                        canonical_source: cs,
                        canonical_target: ct,
                        display_source: self.source,
                        display_target: self.target,
                    },
                )
            },
            _ => None,
        }
    }
}

impl PlanEntryView {
    /// The canonical path on the given side of this entry.
    pub open spec fn canonical(self, side: Side) -> Seq<char> {
        match side {
            Side::Source => self.canonical_source,
            Side::Target => self.canonical_target,
        }
    }
}

/// The entries of the attempts that contribute one, in the order of the
/// attempts.
pub open spec fn planned_entries(attempts: Seq<AttemptView>) -> Seq<PlanEntryView>
    decreases attempts.len(),
{
    if attempts.len() == 0 {
        Seq::empty()
    } else {
        let before = planned_entries(attempts.drop_last());
        match attempts.last().entry() {
            Some(entry) => before.push(entry),
            None => before,
        }
    }
}

/// Whether side `a` of entry `i` is side `b` of an entry. Where `a` and `b`
/// are the same side, only another entry counts.
pub open spec fn clashes_at(entries: Seq<PlanEntryView>, a: Side, b: Side, i: int) -> bool {
    exists|j: int|
        0 <= j < entries.len() && (a != b || j != i) && (#[trigger] entries[j]).canonical(b)
            == entries[i].canonical(a)
}

/// Whether `i` is the first entry that clashes, see [`clashes_at`].
pub open spec fn first_clash_at(entries: Seq<PlanEntryView>, a: Side, b: Side, i: int) -> bool {
    &&& 0 <= i < entries.len()
    &&& clashes_at(entries, a, b, i)
    &&& forall|k: int| 0 <= k < i ==> !clashes_at(entries, a, b, k)
}

/// Side `a` of the first entry that clashes, if any does.
pub open spec fn first_clash(entries: Seq<PlanEntryView>, a: Side, b: Side) -> Option<Seq<char>> {
    if exists|i: int| 0 <= i < entries.len() && clashes_at(entries, a, b, i) {
        let i = choose|i: int| first_clash_at(entries, a, b, i);
        Some(entries[i].canonical(a))
    } else {
        None
    }
}

/// The hazards of a list of entries.
pub open spec fn issues_of(entries: Seq<PlanEntryView>) -> IssueSetView {
    IssueSetView {
        no_matches: entries.len() == 0,
        duplicate_source: first_clash(entries, Side::Source, Side::Source),
        duplicate_target: first_clash(entries, Side::Target, Side::Target),
        source_equals_target_path: first_clash(entries, Side::Source, Side::Target),
    }
}

impl IssueSetView {
    /// A plan with a fatal hazard must not be carried out: there is nothing to
    /// do, or a file is both moved away and moved onto, so that the order of
    /// the moves would decide what survives.
    pub open spec fn is_fatal(self) -> bool {
        self.no_matches || self.source_equals_target_path is Some
    }

    /// An advisory hazard is reported, and the plan stands.
    pub open spec fn is_advisory(self) -> bool {
        self.duplicate_source is Some || self.duplicate_target is Some
    }
}

impl PlanEntry {
    /// The canonical path on the given side of this entry.
    pub fn canonical(&self, side: Side) -> (r: &String)
        ensures
            r@ == self@.canonical(side),
    {
        match side {
            Side::Source => &self.canonical_source,
            Side::Target => &self.canonical_target,
        }
    }
}

impl Attempt {
    /// The entry that this attempt contributes to the plan: none where a side
    /// could not be resolved, and none where both sides are the same file.
    pub fn entry(&self) -> (r: Option<PlanEntry>)
        ensures
            r.deep_view() == self@.entry(),
    {
        match (&self.canonical_source, &self.canonical_target) {
            (Some(cs), Some(ct)) => {
                if *cs == *ct {
                    None
                } else {
                    Some(
                        PlanEntry {
                            canonical_source: cs.clone(),
                            canonical_target: ct.clone(),
                            display_source: self.source.clone(),
                            display_target: self.target.clone(),
                        },
                    )
                }
            },
            _ => None,
        }
    }
}

/// Whether side `a` of entry `i` is side `b` of an entry, see [`clashes_at`].
fn clashes(entries: &Vec<PlanEntry>, a: Side, b: Side, i: usize) -> (r: bool)
    requires
        i < entries.len(),
    ensures
        r == clashes_at(entries.deep_view(), a, b, i as int),
{
    let ghost view = entries.deep_view();
    let same_side: bool = match (a, b) {
        (Side::Source, Side::Source) => true,
        (Side::Target, Side::Target) => true,
        _ => false,
    };
    let mut j: usize = 0;
    while j < entries.len()
        invariant
            i < entries.len(),
            j <= entries.len(),
            view == entries.deep_view(),
            same_side == (a == b),
            forall|k: int|
                0 <= k < j ==> !((a != b || k != i) && (#[trigger] view[k]).canonical(b)
                    == view[i as int].canonical(a)),
        decreases entries.len() - j,
    {
        if (!same_side || j != i) && *entries[j].canonical(b) == *entries[i].canonical(a) {
            assert(view[j as int] == entries[j as int]@);
            return true;
        }
        assert(view[j as int] == entries[j as int]@);
        j += 1;
    }
    false
}

/// Side `a` of the first entry that clashes, if any does.
fn find_clash(entries: &Vec<PlanEntry>, a: Side, b: Side) -> (r: Option<String>)
    ensures
        r.deep_view() == first_clash(entries.deep_view(), a, b),
{
    let ghost view = entries.deep_view();
    let mut i: usize = 0;
    while i < entries.len()
        invariant
            i <= entries.len(),
            view == entries.deep_view(),
            forall|k: int| 0 <= k < i ==> !clashes_at(view, a, b, k),
        decreases entries.len() - i,
    {
        if clashes(entries, a, b, i) {
            let path = entries[i].canonical(a).clone();
            proof {
                assert(first_clash_at(view, a, b, i as int));
                let chosen = choose|c: int| first_clash_at(view, a, b, c);
                assert(chosen == i);
                assert(view[i as int] == entries[i as int]@);
            }
            return Some(path);
        }
        i += 1;
    }
    None
}

/// Finds the hazards of a list of entries: an empty list, a canonical source
/// or a canonical target that occurs more than once, and a canonical path
/// that is both a source and a target.
pub fn classify(entries: &Vec<PlanEntry>) -> (issues: IssueSet)
    ensures
        issues@ == issues_of(entries.deep_view()),
{
    IssueSet {
        no_matches: entries.len() == 0,
        duplicate_source: find_clash(entries, Side::Source, Side::Source),
        duplicate_target: find_clash(entries, Side::Target, Side::Target),
        source_equals_target_path: find_clash(entries, Side::Source, Side::Target),
    }
}

/// Plans the renames. An attempt with an unresolved side is left out, and so
/// is one whose two sides are canonically the same file; the entries of the
/// others keep the order of the attempts, and every one of them is kept,
/// also where a hazard is found.
pub fn plan(attempts: &Vec<Attempt>) -> (r: (Vec<PlanEntry>, IssueSet))
    ensures
        r.0.deep_view() == planned_entries(attempts.deep_view()),
        r.1@ == issues_of(r.0.deep_view()),
        forall|i: int|
            0 <= i < r.0.len() ==> (#[trigger] r.0[i]).canonical_source@
                != r.0[i].canonical_target@,
{
    let ghost view = attempts.deep_view();
    let mut entries: Vec<PlanEntry> = Vec::new();
    let mut i: usize = 0;
    assert(entries.deep_view() =~= planned_entries(view.take(0)));
    while i < attempts.len()
        invariant
            i <= attempts.len(),
            view == attempts.deep_view(),
            entries.deep_view() == planned_entries(view.take(i as int)),
            forall|k: int|
                0 <= k < entries.len() ==> (#[trigger] entries[k]).canonical_source@
                    != entries[k].canonical_target@,
        decreases attempts.len() - i,
    {
        let ghost before = entries.deep_view();
        assert(view.take(i + 1).drop_last() =~= view.take(i as int));
        assert(view.take(i + 1).last() == attempts[i as int]@);
        match attempts[i].entry() {
            Some(entry) => {
                entries.push(entry);
                assert(entries.deep_view() =~= before.push(entry@));
            },
            None => {},
        }
        i += 1;
    }
    assert(view.take(attempts.len() as int) =~= view);
    let issues = classify(&entries);
    (entries, issues)
}

impl IssueSet {
    /// Whether the plan must not be carried out.
    pub fn is_fatal(&self) -> (r: bool)
        ensures
            r == self@.is_fatal(),
    {
        self.no_matches || self.source_equals_target_path.is_some()
    }

    /// Whether there is something to warn of that does not stop the plan.
    pub fn is_advisory(&self) -> (r: bool)
        ensures
            r == self@.is_advisory(),
    {
        self.duplicate_source.is_some() || self.duplicate_target.is_some()
    }
}

/// A clash is named exactly where there is one.
pub proof fn lemma_first_clash_is_some(entries: Seq<PlanEntryView>, a: Side, b: Side)
    ensures
        first_clash(entries, a, b) is Some <==> exists|i: int|
            0 <= i < entries.len() && clashes_at(entries, a, b, i),
{
}

/// No entry of a plan moves a file onto itself.
pub proof fn lemma_no_self_moves(attempts: Seq<AttemptView>, i: int)
    requires
        0 <= i < planned_entries(attempts).len(),
    ensures
        planned_entries(attempts)[i].canonical_source != planned_entries(
            attempts,
        )[i].canonical_target,
    decreases attempts.len(),
{
    if attempts.len() > 0 {
        let before = planned_entries(attempts.drop_last());
        if i < before.len() {
            lemma_no_self_moves(attempts.drop_last(), i);
        }
    }
}

/// Every hazard is found: two entries with one canonical source, two with
/// one canonical target, and a canonical path that is the source of an entry
/// and the target of an entry, which is fatal, as is a plan without entries.
pub proof fn lemma_hazards_are_found(entries: Seq<PlanEntryView>, i: int, j: int)
    requires
        0 <= i < entries.len(),
        0 <= j < entries.len(),
    ensures
        i != j && entries[i].canonical_source == entries[j].canonical_source ==> issues_of(
            entries,
        ).duplicate_source is Some,
        i != j && entries[i].canonical_target == entries[j].canonical_target ==> issues_of(
            entries,
        ).duplicate_target is Some,
        entries[i].canonical_source == entries[j].canonical_target ==> issues_of(
            entries,
        ).is_fatal(),
        !issues_of(entries).no_matches,
        issues_of(Seq::<PlanEntryView>::empty()).is_fatal(),
{
    if i != j && entries[i].canonical_source == entries[j].canonical_source {
        assert(entries[j].canonical(Side::Source) == entries[i].canonical(Side::Source));
        assert(clashes_at(entries, Side::Source, Side::Source, i));
    }
    if i != j && entries[i].canonical_target == entries[j].canonical_target {
        assert(entries[j].canonical(Side::Target) == entries[i].canonical(Side::Target));
        assert(clashes_at(entries, Side::Target, Side::Target, i));
    }
    if entries[i].canonical_source == entries[j].canonical_target {
        assert(entries[j].canonical(Side::Target) == entries[i].canonical(Side::Source));
        assert(clashes_at(entries, Side::Source, Side::Target, i));
    }
}

/// Whether a hazard is found does not depend on the order of the entries:
/// where each entry of `some` is an entry of `all`, entry `k` being entry
/// `place[k]` and no two being the same, a clash among `some` is a clash
/// among `all`. Two lists that hold the same entries in two orders are each
/// the `some` of the other.
pub proof fn lemma_detection_ignores_order(
    some: Seq<PlanEntryView>,
    all: Seq<PlanEntryView>,
    place: Seq<int>,
    a: Side,
    b: Side,
)
    requires
        place.len() == some.len(),
        forall|k: int|
            0 <= k < some.len() ==> 0 <= #[trigger] place[k] < all.len() && all[place[k]]
                == some[k],
        forall|k: int, l: int|
            0 <= k < l < some.len() ==> #[trigger] place[k] != #[trigger] place[l],
    ensures
        first_clash(some, a, b) is Some ==> first_clash(all, a, b) is Some,
        some.len() > 0 ==> all.len() > 0,
{
    if first_clash(some, a, b) is Some {
        let i = choose|i: int| 0 <= i < some.len() && clashes_at(some, a, b, i);
        let j = choose|j: int|
            0 <= j < some.len() && (a != b || j != i) && (#[trigger] some[j]).canonical(b)
                == some[i].canonical(a);
        assert(all[place[j]] == some[j]);
        assert(all[place[i]] == some[i]);
        if j != i {
            if j < i {
                assert(place[j] != place[i]);
            } else {
                assert(place[i] != place[j]);
            }
        }
        assert(all[place[j]].canonical(b) == all[place[i]].canonical(a));
        assert(clashes_at(all, a, b, place[i]));
    }
    if some.len() > 0 {
        assert(0 <= place[0] < all.len());
    }
}

} // verus!
