use vstd::prelude::*;

verus! {

/// The number of bounces after which a path is cut off.
pub const MAX_DEPTH: u32 = 50;

/// Where the evaluation of one sample path stands.
///
/// A path starts by casting its ray into the scene. A surface hit below the
/// depth cap asks the surface's material to scatter; a scattered ray is cast
/// again one bounce deeper. The path ends in the background colour when a ray
/// escapes the scene, and in black when the material absorbs the ray or the
/// depth cap is reached. The radiance of the path is the product of the
/// attenuations met on the way times that final colour.
#[derive(Clone, Copy, Debug, PartialEq, Eq, Structural)]
pub enum PathState {
    /// The ray of bounce `depth` is to be intersected with the scene.
    Casting { depth: u32 },
    /// The ray of bounce `depth` hit a surface whose material is to scatter it.
    Scattering { depth: u32 },
    /// The path ended in the background colour of the last ray's direction.
    Background,
    /// The path ended in black.
    Black,
}

/// What the renderer reports back about the step that a state asked for.
#[derive(Clone, Copy, Debug, PartialEq, Eq, Structural)]
pub enum PathEvent {
    /// The ray escaped the scene.
    Miss,
    /// The ray hit a surface.
    Hit,
    /// The material sent out a continuation ray.
    Scattered,
    /// The material absorbed the ray.
    Absorbed,
}

/// A path has ended.
pub open spec fn is_final(s: PathState) -> bool {
    s is Background || s is Black
}

/// The transition of a path on one event. An event that does not answer
/// what the state asked for leaves the state as it is.
pub open spec fn next_state(s: PathState, e: PathEvent) -> PathState {
    match (s, e) {
        (PathState::Casting { .. }, PathEvent::Miss) => PathState::Background,
        (PathState::Casting { depth }, PathEvent::Hit) => if depth < MAX_DEPTH {
            PathState::Scattering { depth }
        } else {
            PathState::Black
        },
        (PathState::Scattering { depth }, PathEvent::Scattered) => PathState::Casting {
            depth: (depth + 1) as u32,
        },
        (PathState::Scattering { .. }, PathEvent::Absorbed) => PathState::Black,
        _ => s,
    }
}

/// The state reached from `s` through `events`, in order.
pub open spec fn run(s: PathState, events: Seq<PathEvent>) -> PathState
    decreases events.len(),
{
    if events.len() == 0 {
        s
    } else {
        run(next_state(s, events[0]), events.drop_first())
    }
}

/// The events of `n` bounces in which every ray hits a surface and every
/// surface scatters it on.
pub open spec fn all_scatter(n: nat) -> Seq<PathEvent>
    decreases n,
{
    if n == 0 {
        Seq::empty()
    } else {
        seq![PathEvent::Hit, PathEvent::Scattered] + all_scatter((n - 1) as nat)
    }
}

/// A reachable state: a ray is cast at most `MAX_DEPTH` bounces deep, and
/// only a ray below the cap is scattered.
pub open spec fn within_cap(s: PathState) -> bool {
    match s {
        PathState::Casting { depth } => depth <= MAX_DEPTH,
        PathState::Scattering { depth } => depth < MAX_DEPTH,
        _ => true,
    }
}

proof fn lemma_run_concat(s: PathState, a: Seq<PathEvent>, b: Seq<PathEvent>)
    ensures
        run(s, a + b) == run(run(s, a), b),
    decreases a.len(),
{
    if a.len() > 0 {
        assert((a + b).drop_first() =~= a.drop_first() + b);
        assert((a + b)[0] == a[0]);
        lemma_run_concat(next_state(s, a[0]), a.drop_first(), b);
    } else {
        assert(a + b =~= b);
    }
}

/// An ended path stays ended, whatever is reported afterwards.
pub proof fn lemma_final_is_absorbing(s: PathState, events: Seq<PathEvent>)
    requires
        is_final(s),
    ensures
        run(s, events) == s,
    decreases events.len(),
{
    if events.len() > 0 {
        lemma_final_is_absorbing(next_state(s, events[0]), events.drop_first());
    }
}

/// Whatever the scene and the materials report, a path never goes past the
/// depth cap: no ray is cast more than `MAX_DEPTH` bounces deep, and no ray at
/// the cap is scattered.
pub proof fn lemma_depth_stays_capped(s: PathState, events: Seq<PathEvent>)
    requires
        within_cap(s),
    ensures
        within_cap(run(s, events)),
    decreases events.len(),
{
    if events.len() > 0 {
        lemma_depth_stays_capped(next_state(s, events[0]), events.drop_first());
    }
}

proof fn lemma_scatter_from(depth: nat, n: nat)
    requires
        depth <= MAX_DEPTH,
    ensures
        run(PathState::Casting { depth: depth as u32 }, all_scatter(n)) == if depth + n
            <= MAX_DEPTH {
            PathState::Casting { depth: (depth + n) as u32 }
        } else {
            PathState::Black
        },
    decreases n,
{
    let s = PathState::Casting { depth: depth as u32 };
    if n > 0 {
        let evs = all_scatter(n);
        let rest = all_scatter((n - 1) as nat);
        assert(evs[0] == PathEvent::Hit);
        assert(evs.drop_first() =~= seq![PathEvent::Scattered] + rest);
        if depth < MAX_DEPTH {
            let s1 = PathState::Scattering { depth: depth as u32 };
            assert((seq![PathEvent::Scattered] + rest)[0] == PathEvent::Scattered);
            assert((seq![PathEvent::Scattered] + rest).drop_first() =~= rest);
            assert(run(s1, seq![PathEvent::Scattered] + rest) == run(
                PathState::Casting { depth: (depth + 1) as u32 },
                rest,
            ));
            lemma_scatter_from(depth + 1, (n - 1) as nat);
        } else {
            lemma_final_is_absorbing(PathState::Black, seq![PathEvent::Scattered] + rest);
        }
    }
}

/// A ray caught between perfect mirrors, where every ray hits a surface and
/// every surface reflects it, ends in black once it would go past the depth
/// cap, whatever is reported afterwards; below the cap it is still being
/// traced, `n` bounces deep.
pub proof fn lemma_mirror_corridor_ends_black(n: nat, after: Seq<PathEvent>)
    ensures
        n > MAX_DEPTH ==> run(PathState::Casting { depth: 0 }, all_scatter(n) + after)
            == PathState::Black,
        n <= MAX_DEPTH ==> run(PathState::Casting { depth: 0 }, all_scatter(n))
            == (PathState::Casting { depth: n as u32 }),
{
    lemma_scatter_from(0, n);
    lemma_run_concat(PathState::Casting { depth: 0 }, all_scatter(n), after);
    if n > MAX_DEPTH {
        lemma_final_is_absorbing(PathState::Black, after);
    }
}

impl PathState {
    /// The state of a fresh camera ray.
    pub fn start() -> (r: PathState)
        ensures
            r == (PathState::Casting { depth: 0 }),
            within_cap(r),
    {
        PathState::Casting { depth: 0 }
    }

    /// Whether the path has ended.
    pub fn is_done(&self) -> (r: bool)
        ensures
            r == is_final(*self),
    {
        match self {
            PathState::Background | PathState::Black => true,
            _ => false,
        }
    }

    /// Moves the path on by one event.
    pub fn advance(self, e: PathEvent) -> (r: PathState)
        requires
            within_cap(self),
        ensures
            r == next_state(self, e),
            within_cap(r),
    {
        match (self, e) {
            (PathState::Casting { .. }, PathEvent::Miss) => PathState::Background,
            (PathState::Casting { depth }, PathEvent::Hit) => {
                if depth < MAX_DEPTH {
                    PathState::Scattering { depth }
                } else {
                    PathState::Black
                }
            },
            (PathState::Scattering { depth }, PathEvent::Scattered) => PathState::Casting {
                depth: depth + 1,
            },
            (PathState::Scattering { .. }, PathEvent::Absorbed) => PathState::Black,
            _ => self,
        }
    }
}

} // verus!
