use vstd::prelude::*;

verus! {

/// What the scene did with a ray.
#[derive(Clone, Copy, Debug, PartialEq, Eq, Structural)]
pub enum Encounter {
    /// The ray struck nothing.
    Miss,
    /// The ray struck a surface that kept it.
    Absorbed,
    /// The ray struck a surface that sent it on.
    Scattered,
}

/// The light at the end of a path, before the surfaces on the way have
/// taken their share.
#[derive(Clone, Copy, Debug, PartialEq, Eq, Structural)]
pub enum Radiance {
    /// No light.
    Black,
    /// The light of the sky in the direction of the last ray.
    Background,
}

/// Where the evaluation of one path stands.
#[derive(Clone, Copy, Debug, PartialEq, Eq, Structural)]
pub enum PathState {
    /// The current ray is to be sent into the scene; it may be scattered
    /// `depth` times more, this time included.
    Tracing { depth: isize },
    /// The path has ended.
    Finished { radiance: Radiance },
}

impl PathState {
    /// A state that the evaluation of a path can be in: a ray is sent into
    /// the scene only while some depth is left.
    pub open spec fn wf(self) -> bool {
        match self {
            PathState::Tracing { depth } => depth >= 1,
            PathState::Finished { .. } => true,
        }
    }

    pub open spec fn spec_start(depth: isize) -> PathState {
        if depth <= 0 {
            PathState::Finished { radiance: Radiance::Black }
        } else {
            PathState::Tracing { depth }
        }
    }

    pub open spec fn spec_advance(self, encounter: Encounter) -> PathState {
        match self {
            PathState::Finished { radiance } => PathState::Finished { radiance },
            PathState::Tracing { depth } => match encounter {
                Encounter::Miss => PathState::Finished { radiance: Radiance::Background },
                Encounter::Absorbed => PathState::Finished { radiance: Radiance::Black },
                Encounter::Scattered => if depth <= 1 {
                    PathState::Finished { radiance: Radiance::Black }
                } else {
                    PathState::Tracing { depth: (depth - 1) as isize }
                },
            },
        }
    }

    /// The state in which the evaluation of a path begins. With no depth
    /// left the path is black before any ray is sent.
    pub fn start(depth: isize) -> (state: PathState)
        ensures
            state == Self::spec_start(depth),
            state.wf(),
            depth <= 0 ==> state == (PathState::Finished { radiance: Radiance::Black }),
    {
        if depth <= 0 {
            PathState::Finished { radiance: Radiance::Black }
        } else {
            PathState::Tracing { depth }
        }
    }

    /// The state after the scene has answered for the current ray. A ray
    /// that strikes nothing ends the path in the light of the sky, one that
    /// is absorbed ends it in black, and one that is scattered goes on with
    /// one less of depth, or ends it in black where none is left. A path that
    /// has ended stays as it is.
    pub fn advance(self, encounter: Encounter) -> (next: PathState)
        ensures
            next == self.spec_advance(encounter),
            self.wf() ==> next.wf(),
    {
        match self {
            PathState::Finished { radiance } => PathState::Finished { radiance },
            PathState::Tracing { depth } => match encounter {
                Encounter::Miss => PathState::Finished { radiance: Radiance::Background },
                Encounter::Absorbed => PathState::Finished { radiance: Radiance::Black },
                Encounter::Scattered => if depth <= 1 {
                    PathState::Finished { radiance: Radiance::Black }
                } else {
                    PathState::Tracing { depth: depth - 1 }
                },
            },
        }
    }

    /// Whether the path has ended.
    pub fn is_finished(&self) -> (finished: bool)
        ensures
            finished == (*self is Finished),
    {
        match self {
            PathState::Finished { .. } => true,
            PathState::Tracing { .. } => false,
        }
    }
}

/// The state of a path of the given depth after the scene has answered
/// `encounters`, one after another.
pub open spec fn trace(depth: isize, encounters: Seq<Encounter>) -> PathState
    decreases encounters.len(),
{
    if encounters.len() == 0 {
        PathState::spec_start(depth)
    } else {
        trace(depth, encounters.drop_last()).spec_advance(encounters.last())
    }
}

/// A path of depth zero or less is black, whatever the scene holds and
/// whatever the ray.
pub proof fn lemma_no_depth_is_black(depth: isize, encounters: Seq<Encounter>)
    requires
        depth <= 0,
    ensures
        trace(depth, encounters) == (PathState::Finished { radiance: Radiance::Black }),
    decreases encounters.len(),
{
    if encounters.len() > 0 {
        lemma_no_depth_is_black(depth, encounters.drop_last());
    }
}

/// While every ray so far was scattered, the path has lost one of depth for
/// each of them, and ends in black when none is left.
pub proof fn lemma_all_scattered(depth: isize, encounters: Seq<Encounter>)
    requires
        forall|i: int| 0 <= i < encounters.len() ==> encounters[i] == Encounter::Scattered,
    ensures
        encounters.len() < depth ==> trace(depth, encounters) == (PathState::Tracing {
            depth: (depth - encounters.len()) as isize,
        }),
        encounters.len() >= depth ==> trace(depth, encounters) == (PathState::Finished {
            radiance: Radiance::Black,
        }),
    decreases encounters.len(),
{
    if encounters.len() > 0 {
        lemma_all_scattered(depth, encounters.drop_last());
    }
}

/// Every state that a path goes through is well formed, and a path is over
/// after as many answers of the scene as it has depth: the evaluation of a
/// ray ends.
pub proof fn lemma_path_ends(depth: isize, encounters: Seq<Encounter>)
    ensures
        trace(depth, encounters).wf(),
        match trace(depth, encounters) {
            PathState::Tracing { depth: left } => left == depth - encounters.len(),
            PathState::Finished { .. } => true,
        },
        encounters.len() >= depth ==> trace(depth, encounters) is Finished,
    decreases encounters.len(),
{
    if encounters.len() > 0 {
        lemma_path_ends(depth, encounters.drop_last());
    }
}

/// The first answer of the scene that is not a scattering decides the path,
/// where it comes while depth is left: a miss ends it in the light of the
/// sky, an absorption in black, and nothing that follows changes that.
pub proof fn lemma_first_end_decides(depth: isize, encounters: Seq<Encounter>, first: int)
    requires
        0 <= first < encounters.len(),
        first < depth,
        encounters[first] != Encounter::Scattered,
        forall|i: int| 0 <= i < first ==> encounters[i] == Encounter::Scattered,
    ensures
        encounters[first] == Encounter::Miss ==> trace(depth, encounters) == (PathState::Finished {
            radiance: Radiance::Background,
        }),
        encounters[first] == Encounter::Absorbed ==> trace(depth, encounters) == (
        PathState::Finished { radiance: Radiance::Black }),
    decreases encounters.len(),
{
    if first == encounters.len() - 1 {
        lemma_all_scattered(depth, encounters.drop_last());
    } else {
        lemma_first_end_decides(depth, encounters.drop_last(), first);
    }
}

} // verus!
