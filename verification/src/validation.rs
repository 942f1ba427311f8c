//! Evidence that a complete world passed the shared placement checks. It
//! proves supported initial placement, not temporal correctness.

use vstd::prelude::*;

use crate::world::{
    is_horizontal, spec_capabilities, support_issue_list, supports_in_range, Block, BlockKind,
    CapabilityLevel, Facing, Pos, World,
};

verus! {

#[derive(Clone, Debug, PartialEq, Eq)]
pub enum WorldValidationIssue {
    InvalidSupport { position: Pos, kind: BlockKind, support: Option<Pos> },
    UnsupportedPlacement { position: Pos, kind: BlockKind },
    InvalidState { position: Pos, reason: String },
    SyntheticInputDriver { reason: String },
    DuplicateChange { position: Pos },
}

/// A block-state problem found by placement validation.
#[derive(Clone, Copy, Debug, PartialEq, Eq, Structural)]
pub enum StateProblem {
    SupportNotAdjacent,
    SupportNotBelow,
    RedstoneBlockSwitchedOff,
    MissingHorizontalFacing,
    RepeaterDelayOutOfRange,
    ObserverWithoutFacing,
    PowerLevelOutOfRange,
}

/// The explanation recorded for a block-state problem.
pub open spec fn problem_text(p: StateProblem) -> Seq<char> {
    match p {
        StateProblem::SupportNotAdjacent => "support must be immediately adjacent"@,
        StateProblem::SupportNotBelow => "this component requires support directly below"@,
        StateProblem::RedstoneBlockSwitchedOff =>
            "Java redstone blocks cannot be switched off; use a physical input device"@,
        StateProblem::MissingHorizontalFacing =>
            "directional device needs an explicit horizontal facing"@,
        StateProblem::RepeaterDelayOutOfRange => "repeater needs an explicit delay from 1 to 4"@,
        StateProblem::ObserverWithoutFacing => "observer needs an explicit facing"@,
        StateProblem::PowerLevelOutOfRange => "power level must be between 0 and 15"@,
    }
}

/// The data of a validation issue, with strings as characters.
pub enum IssueView {
    InvalidSupport(Pos, BlockKind, Option<Pos>),
    UnsupportedPlacement(Pos, BlockKind),
    InvalidState(Pos, Seq<char>),
    SyntheticInputDriver(Seq<char>),
    DuplicateChange(Pos),
}

pub open spec fn issue_view(i: WorldValidationIssue) -> IssueView {
    match i {
        WorldValidationIssue::InvalidSupport { position, kind, support } => IssueView::InvalidSupport(
            position,
            kind,
            support,
        ),
        WorldValidationIssue::UnsupportedPlacement { position, kind } =>
            IssueView::UnsupportedPlacement(position, kind),
        WorldValidationIssue::InvalidState { position, reason } => IssueView::InvalidState(
            position,
            reason@,
        ),
        WorldValidationIssue::SyntheticInputDriver { reason } => IssueView::SyntheticInputDriver(
            reason@,
        ),
        WorldValidationIssue::DuplicateChange { position } => IssueView::DuplicateChange(position),
    }
}

pub open spec fn is_unit_offset(o: Pos) -> bool {
    (o.x == 0 && o.y == -1 && o.z == 0) || (o.x == 0 && o.y == 1 && o.z == 0) || (o.x == -1 && o.y
        == 0 && o.z == 0) || (o.x == 1 && o.y == 0 && o.z == 0) || (o.x == 0 && o.y == 0 && o.z
        == -1) || (o.x == 0 && o.y == 0 && o.z == 1)
}

pub open spec fn push_if(s: Seq<StateProblem>, c: bool, p: StateProblem) -> Seq<StateProblem> {
    if c {
        s.push(p)
    } else {
        s
    }
}

/// The block-state problems of one block, in the order they are reported.
pub open spec fn state_problems(b: Block) -> Seq<StateProblem> {
    let s0 = Seq::<StateProblem>::empty();
    let s1 = match b.support_offset {
        Some(o) => {
            let a = push_if(s0, !is_unit_offset(o), StateProblem::SupportNotAdjacent);
            push_if(
                a,
                (b.kind is RedstoneWire || b.kind is Repeater || b.kind is Comparator
                    || b.kind is PressurePlate) && o != Pos { x: 0, y: -1i32, z: 0 },
                StateProblem::SupportNotBelow,
            )
        },
        None => s0,
    };
    let s2 = push_if(
        s1,
        b.kind is RedstoneBlock && b.powered == Some(false),
        StateProblem::RedstoneBlockSwitchedOff,
    );
    let s3 = push_if(
        s2,
        (b.kind is Repeater || b.kind is Comparator) && !(b.facing matches Some(f) && is_horizontal(
            f,
        )),
        StateProblem::MissingHorizontalFacing,
    );
    let s4 = push_if(
        s3,
        b.kind is Repeater && !(b.delay matches Some(d) && 1 <= d <= 4),
        StateProblem::RepeaterDelayOutOfRange,
    );
    let s5 = push_if(
        s4,
        b.kind is Observer && b.facing is None,
        StateProblem::ObserverWithoutFacing,
    );
    push_if(
        s5,
        b.power_level matches Some(l) && l > 15,
        StateProblem::PowerLevelOutOfRange,
    )
}

/// The issues reported for one stored block after the support issues.
pub open spec fn block_issues(p: Pos, b: Block) -> Seq<IssueView> {
    let capability = if spec_capabilities(b).placement != CapabilityLevel::Full {
        seq![IssueView::UnsupportedPlacement(p, b.kind)]
    } else {
        Seq::empty()
    };
    capability + state_problems(b).map_values(
        |sp: StateProblem| IssueView::InvalidState(p, problem_text(sp)),
    )
}

/// Issues of the first `n` stored blocks, in world order.
pub open spec fn block_issue_list(w: World, n: nat) -> Seq<IssueView>
    decreases n,
{
    if n == 0 {
        Seq::empty()
    } else {
        block_issue_list(w, (n - 1) as nat) + block_issues(w@[n - 1].0, w@[n - 1].1)
    }
}

/// Every issue placement validation reports for a world: support issues
/// first, then capability and block-state issues in world order.
pub open spec fn placement_issue_list(w: World) -> Seq<IssueView> {
    support_issue_list(w, w@.len()).map_values(
        |t: (Pos, BlockKind, Option<Pos>)| IssueView::InvalidSupport(t.0, t.1, t.2),
    ) + block_issue_list(w, w@.len())
}

#[derive(Clone, Debug, PartialEq, Eq)]
pub struct WorldValidationError {
    pub issues: Vec<WorldValidationIssue>,
}

/// A world that passed placement validation. Converting back to `World`
/// discards the evidence.
#[derive(Clone, Debug, PartialEq, Eq)]
pub struct ValidatedWorld(World);

fn problem_string(p: StateProblem) -> (r: String)
    ensures
        r@ == problem_text(p),
{
    let text: &str = match p {
        StateProblem::SupportNotAdjacent => "support must be immediately adjacent",
        StateProblem::SupportNotBelow => "this component requires support directly below",
        StateProblem::RedstoneBlockSwitchedOff =>
            "Java redstone blocks cannot be switched off; use a physical input device",
        StateProblem::MissingHorizontalFacing =>
            "directional device needs an explicit horizontal facing",
        StateProblem::RepeaterDelayOutOfRange => "repeater needs an explicit delay from 1 to 4",
        StateProblem::ObserverWithoutFacing => "observer needs an explicit facing",
        StateProblem::PowerLevelOutOfRange => "power level must be between 0 and 15",
    };
    text.to_owned()
}

fn push_state_issue(
    issues: &mut Vec<WorldValidationIssue>,
    position: Pos,
    p: StateProblem,
    Ghost(expected): Ghost<Seq<IssueView>>,
)
    requires
        old(issues)@.len() == expected.len(),
        forall|i: int| 0 <= i < expected.len() ==> issue_view(#[trigger] old(issues)@[i]) == expected[i],
    ensures
        final(issues)@.len() == expected.len() + 1,
        forall|i: int|
            0 <= i < expected.len() + 1 ==> issue_view(#[trigger] final(issues)@[i]) == expected.push(
                IssueView::InvalidState(position, problem_text(p)),
            )[i],
{
    issues.push(WorldValidationIssue::InvalidState { position, reason: problem_string(p) });
}

/// Block-state problems of one block, in report order.
pub fn block_state_problems(block: &Block) -> (r: Vec<StateProblem>)
    ensures
        r@ == state_problems(*block),
{
    let mut out: Vec<StateProblem> = Vec::new();
    if let Some(offset) = block.support_offset {
        let adjacent = (offset.x == 0 && offset.y == -1 && offset.z == 0) || (offset.x == 0
            && offset.y == 1 && offset.z == 0) || (offset.x == -1 && offset.y == 0 && offset.z
            == 0) || (offset.x == 1 && offset.y == 0 && offset.z == 0) || (offset.x == 0
            && offset.y == 0 && offset.z == -1) || (offset.x == 0 && offset.y == 0 && offset.z
            == 1);
        if !adjacent {
            out.push(StateProblem::SupportNotAdjacent);
        }
        if matches!(
            block.kind,
            BlockKind::RedstoneWire | BlockKind::Repeater | BlockKind::Comparator
                | BlockKind::PressurePlate
        ) && offset != Pos::new(0, -1, 0) {
            out.push(StateProblem::SupportNotBelow);
        }
    }
    if block.kind == BlockKind::RedstoneBlock && block.powered == Some(false) {
        out.push(StateProblem::RedstoneBlockSwitchedOff);
    }
    if matches!(block.kind, BlockKind::Repeater | BlockKind::Comparator) && !matches!(
        block.facing,
        Some(Facing::North) | Some(Facing::South) | Some(Facing::East) | Some(Facing::West)
    ) {
        out.push(StateProblem::MissingHorizontalFacing);
    }
    if block.kind == BlockKind::Repeater && !(match block.delay {
        Some(d) => 1 <= d && d <= 4,
        None => false,
    }) {
        out.push(StateProblem::RepeaterDelayOutOfRange);
    }
    if block.kind == BlockKind::Observer && block.facing.is_none() {
        out.push(StateProblem::ObserverWithoutFacing);
    }
    if match block.power_level {
        Some(l) => l > 15,
        None => false,
    } {
        out.push(StateProblem::PowerLevelOutOfRange);
    }
    proof {
        assert(out@ =~= state_problems(*block));
    }
    out
}

impl World {
    /// Placement validation: invalid supports, blocks whose placement is not
    /// fully supported, and malformed block states.
    pub fn placement_issues(&self) -> (r: Vec<WorldValidationIssue>)
        requires
            self.wf(),
            supports_in_range(*self),
        ensures
            r@.map_values(|i: WorldValidationIssue| issue_view(i)) == placement_issue_list(*self),
    {
        let support = self.support_issues();
        let mut issues: Vec<WorldValidationIssue> = Vec::new();
        let ns = support.len();
        let mut k: usize = 0;
        let ghost support_views = support@.map_values(
            |t: (Pos, BlockKind, Option<Pos>)| IssueView::InvalidSupport(t.0, t.1, t.2),
        );
        while k < ns
            invariant
                ns == support@.len(),
                k <= ns,
                support_views == support@.map_values(
                    |t: (Pos, BlockKind, Option<Pos>)| IssueView::InvalidSupport(t.0, t.1, t.2),
                ),
                issues@.len() == k,
                forall|i: int| 0 <= i < k ==> issue_view(#[trigger] issues@[i]) == support_views[i],
            decreases ns - k,
        {
            let (position, kind, s) = support[k];
            issues.push(WorldValidationIssue::InvalidSupport { position, kind, support: s });
            k = k + 1;
        }
        let n = self.entries_len();
        let mut i: usize = 0;
        while i < n
            invariant
                n == self@.len(),
                i <= n,
                support_views == support_issue_list(*self, self@.len()).map_values(
                    |t: (Pos, BlockKind, Option<Pos>)| IssueView::InvalidSupport(t.0, t.1, t.2),
                ),
                issues@.len() == (support_views + block_issue_list(*self, i as nat)).len(),
                forall|j: int|
                    0 <= j < issues@.len() ==> issue_view(#[trigger] issues@[j]) == (support_views
                        + block_issue_list(*self, i as nat))[j],
            decreases n - i,
        {
            let (position, block) = self.entry_at(i);
            let ghost before = support_views + block_issue_list(*self, i as nat);
            let ghost mut expected = before;
            if block.capabilities().placement != CapabilityLevel::Full {
                issues.push(WorldValidationIssue::UnsupportedPlacement { position, kind: block.kind });
                proof {
                    expected = expected.push(IssueView::UnsupportedPlacement(position, block.kind));
                }
            }
            let problems = block_state_problems(block);
            let np = problems.len();
            let ghost after_cap = expected;
            let mut j: usize = 0;
            while j < np
                invariant
                    np == problems@.len(),
                    j <= np,
                    issues@.len() == expected.len(),
                    forall|t: int| 0 <= t < expected.len() ==> issue_view(#[trigger] issues@[t]) == expected[t],
                    expected == after_cap + problems@.subrange(0, j as int).map_values(
                        |sp: StateProblem| IssueView::InvalidState(position, problem_text(sp)),
                    ),
                decreases np - j,
            {
                push_state_issue(&mut issues, position, problems[j], Ghost(expected));
                proof {
                    let next = expected.push(IssueView::InvalidState(position, problem_text(problems@[j as int])));
                    assert(next =~= after_cap + problems@.subrange(0, j + 1).map_values(
                        |sp: StateProblem| IssueView::InvalidState(position, problem_text(sp)),
                    ));
                    expected = next;
                }
                j = j + 1;
            }
            proof {
                assert(problems@.subrange(0, np as int) =~= problems@);
                assert(expected =~= support_views + block_issue_list(*self, (i + 1) as nat));
            }
            i = i + 1;
        }
        proof {
            assert(issues@.map_values(|i: WorldValidationIssue| issue_view(i)) =~= placement_issue_list(*self));
        }
        issues
    }

    /// Number of stored entries.
    pub fn entries_len(&self) -> (r: usize)
        ensures
            r == self@.len(),
    {
        self.len()
    }
}

impl ValidatedWorld {
    /// Validates a world: `Ok` exactly when placement validation reports no
    /// issue.
    pub fn try_new(world: World) -> (r: Result<ValidatedWorld, WorldValidationError>)
        requires
            world.wf(),
            supports_in_range(world),
        ensures
            match r {
                Ok(v) => v.inner() == world && placement_issue_list(world).len() == 0,
                Err(e) => e.issues@.map_values(|i: WorldValidationIssue| issue_view(i))
                    == placement_issue_list(world) && e.issues@.len() > 0,
            },
    {
        let issues = world.placement_issues();
        if issues.len() == 0 {
            assert(issues@.map_values(|i: WorldValidationIssue| issue_view(i)).len() == 0);
            Ok(ValidatedWorld(world))
        } else {
            Err(WorldValidationError { issues })
        }
    }

    /// The world that passed validation.
    pub closed spec fn inner(&self) -> World {
        self.0
    }

    /// The validated world.
    pub fn world(&self) -> (r: &World)
        ensures
            *r == self.inner(),
    {
        &self.0
    }

    /// Discards the evidence and returns the world.
    pub fn into_world(self) -> (r: World)
        ensures
            r == self.inner(),
    {
        self.0
    }
}

} // verus!
