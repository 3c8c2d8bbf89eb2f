//! Which bodies collide with which: a frozen marble is taken out of the marbles' group so
//! that the others pass through it, while it still rests on the track.
use vstd::prelude::*;

verus! {

/// The group bit of marbles.
pub const MARBLE_GROUP: u32 = 1;

/// The group bit of frozen marbles.
pub const FROZEN_GROUP: u32 = 2;

/// Every group bit.
pub const ALL_GROUPS: u32 = 0xffff_ffff;

/// The groups a collider belongs to, and the groups it may touch.
#[derive(Clone, Copy, Debug, PartialEq, Eq, Structural)]
pub struct CollisionMasks {
    pub memberships: u32,
    pub filters: u32,
}

/// Whether two colliders touch: each belongs to a group the other may touch.
pub open spec fn interacts(a: CollisionMasks, b: CollisionMasks) -> bool {
    (a.memberships & b.filters) != 0 && (b.memberships & a.filters) != 0
}

/// The groups of the track and every other body: all of them, touching all.
pub open spec fn world_masks() -> CollisionMasks {
    CollisionMasks { memberships: ALL_GROUPS, filters: ALL_GROUPS }
}

/// The groups of a moving marble: the marbles' group, touching everything but frozen
/// marbles.
pub fn marble_groups() -> (m: CollisionMasks)
    ensures
        m.memberships == MARBLE_GROUP,
        m.filters == ALL_GROUPS & !FROZEN_GROUP,
{
    CollisionMasks { memberships: MARBLE_GROUP, filters: ALL_GROUPS & !FROZEN_GROUP }
}

/// The groups of a frozen marble: the frozen group, touching everything but marbles,
/// frozen or not.
pub fn frozen_groups() -> (m: CollisionMasks)
    ensures
        m.memberships == FROZEN_GROUP,
        m.filters == ALL_GROUPS & !MARBLE_GROUP & !FROZEN_GROUP,
{
    CollisionMasks {
        memberships: FROZEN_GROUP,
        filters: ALL_GROUPS & !MARBLE_GROUP & !FROZEN_GROUP,
    }
}

/// Moving marbles collide with each other and with the track; a frozen marble still
/// rests on the track, but neither moving nor frozen marbles collide with it.
pub proof fn law_frozen_marbles_are_passed_through(marble: CollisionMasks, frozen: CollisionMasks)
    requires
        marble.memberships == MARBLE_GROUP,
        marble.filters == ALL_GROUPS & !FROZEN_GROUP,
        frozen.memberships == FROZEN_GROUP,
        frozen.filters == ALL_GROUPS & !MARBLE_GROUP & !FROZEN_GROUP,
    ensures
        interacts(marble, marble),
        interacts(marble, world_masks()),
        interacts(frozen, world_masks()),
        !interacts(marble, frozen),
        !interacts(frozen, marble),
        !interacts(frozen, frozen),
{
    assert(1u32 & (0xffff_ffffu32 & !2u32) != 0) by (bit_vector);
    assert(1u32 & 0xffff_ffffu32 != 0) by (bit_vector);
    assert(0xffff_ffffu32 & (0xffff_ffffu32 & !2u32) != 0) by (bit_vector);
    assert(2u32 & 0xffff_ffffu32 != 0) by (bit_vector);
    assert(0xffff_ffffu32 & (0xffff_ffffu32 & !1u32 & !2u32) != 0) by (bit_vector);
    assert(1u32 & (0xffff_ffffu32 & !1u32 & !2u32) == 0) by (bit_vector);
    assert(2u32 & (0xffff_ffffu32 & !1u32 & !2u32) == 0) by (bit_vector);
    assert(2u32 & (0xffff_ffffu32 & !2u32) == 0) by (bit_vector);
}

} // verus!
