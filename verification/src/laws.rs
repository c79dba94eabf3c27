use vstd::prelude::*;
use crate::errors::ApiError;
use crate::graph::{link_post, Graph};

verus! {

/// One lifecycle event on the registry's name set.
pub enum RegistryEvent {
    Create(Seq<char>),
    Delete(Seq<char>),
}

/// The name-set transition of one event: exactly what `Registry::graph_new`
/// and `Registry::graph_delete` ensure of `Registry::name_set`, whether or
/// not the operation was refused.
pub open spec fn apply_event(names: Set<Seq<char>>, e: RegistryEvent) -> Set<Seq<char>> {
    match e {
        RegistryEvent::Create(n) => names.insert(n),
        RegistryEvent::Delete(n) => names.remove(n),
    }
}

/// The registry's name set after replaying a sequence of events against
/// an empty registry.
pub open spec fn replay(events: Seq<RegistryEvent>) -> Set<Seq<char>>
    decreases events.len(),
{
    if events.len() == 0 {
        Set::empty()
    } else {
        apply_event(replay(events.drop_last()), events.last())
    }
}

/// Was the name created by the sequence and not deleted since?
pub open spec fn created_not_deleted(events: Seq<RegistryEvent>, n: Seq<char>) -> bool
    decreases events.len(),
{
    if events.len() == 0 {
        false
    } else {
        match events.last() {
            RegistryEvent::Create(m) => m == n || created_not_deleted(events.drop_last(), n),
            RegistryEvent::Delete(m) => m != n && created_not_deleted(events.drop_last(), n),
        }
    }
}

/// Idempotent accounting: after replaying any sequence of graph
/// creations and deletions, the registry's name set is exactly the set
/// of names created and not yet deleted.
pub proof fn lemma_replay_names(events: Seq<RegistryEvent>)
    ensures
        replay(events) =~= Set::new(|n: Seq<char>| created_not_deleted(events, n)),
    decreases events.len(),
{
    if events.len() > 0 {
        lemma_replay_names(events.drop_last());
    }
}

/// Link totality: whatever the link attempt returned — success or
/// failure — a pair of bricks that were both present before the call
/// are both present in the graph afterwards.
pub proof fn lemma_link_preserves_membership(
    og: Graph,
    ng: Graph,
    w: Seq<char>,
    e: Seq<char>,
    r: Result<(), ApiError>,
)
    requires
        link_post(og, ng, w, e, r),
        og.has_brick(w),
        og.has_brick(e),
    ensures
        ng.has_brick(w),
        ng.has_brick(e),
{
    if w == e {
        assert(ng.bricks@ == og.bricks@);
    }
}

/// Partial presence, west side missing: the east brick remains present
/// and untouched, and the result names the missing west side.
pub proof fn lemma_link_partial_west_missing(
    og: Graph,
    ng: Graph,
    w: Seq<char>,
    e: Seq<char>,
    r: Result<(), ApiError>,
)
    requires
        link_post(og, ng, w, e, r),
        !og.has_brick(w),
        og.has_brick(e),
    ensures
        ng.has_brick(e),
        ng.brick(e) == og.brick(e),
        r == Err::<(), ApiError>(ApiError::WestBrickNotFound),
{
    assert(ng.bricks@ == og.bricks@);
}

/// Partial presence, east side missing: the west brick remains present
/// and untouched, and the result names the missing east side.
pub proof fn lemma_link_partial_east_missing(
    og: Graph,
    ng: Graph,
    w: Seq<char>,
    e: Seq<char>,
    r: Result<(), ApiError>,
)
    requires
        link_post(og, ng, w, e, r),
        og.has_brick(w),
        !og.has_brick(e),
    ensures
        ng.has_brick(w),
        ng.brick(w) == og.brick(w),
        r == Err::<(), ApiError>(ApiError::EastBrickNotFound),
{
    assert(w != e);
    assert(ng.bricks@ == og.bricks@);
}

} // verus!
