//! A fixed joint: two anchors, each a position local to a body (or to the world), that the
//! joint keeps together.
use vstd::prelude::*;
use vstd::std_specs::cmp::PartialEqSpec;

use crate::body::{BodyKind, BodyRef};

verus! {

/// An anchor: a position, local to a body when there is one, in world coordinates otherwise.
pub struct Anchor<M> {
    pub body: Option<BodyRef>,
    pub position: M,
}

impl<M> Anchor<M> {
    /// The anchor at `position`, local to `body` when there is one.
    pub fn new(body: Option<BodyRef>, position: M) -> (res: Anchor<M>)
        ensures
            res.body == body,
            res.position == position,
    {
        Anchor { body, position }
    }
}

/// Where an anchor is in world coordinates.
pub enum AnchorPosition<M> {
    /// At this position: the anchor is on no body.
    World(M),
    /// At this position in the frame of the rigid body with this key: its transform applied to
    /// the local position.
    OnBody { body: usize, local: M },
}

/// Where `anchor` is, for an anchor that is not on a soft body.
pub open spec fn anchor_position<M>(anchor: Anchor<M>) -> AnchorPosition<M> {
    match anchor.body {
        Some(b) => AnchorPosition::OnBody { body: b.key, local: anchor.position },
        None => AnchorPosition::World(anchor.position),
    }
}

/// Whether the position of `anchor` can be told: soft bodies carry no anchors.
pub open spec fn anchor_supported<M>(anchor: Anchor<M>) -> bool {
    anchor.body matches Some(b) ==> b.kind == BodyKind::Rigid
}

/// The anchor after its local position was set to `local`: unchanged when the new position
/// equals the current one, else moved there and the joint marked out of date.
pub open spec fn moved<M>(up_to_date: bool, anchor: Anchor<M>, local: M, changed: bool) -> (bool, Anchor<M>) {
    if changed {
        (false, Anchor { position: local, ..anchor })
    } else {
        (up_to_date, anchor)
    }
}

/// A joint that keeps two anchors together.
pub struct Fixed<M> {
    up_to_date: bool,
    anchor1: Anchor<M>,
    anchor2: Anchor<M>,
}

impl<M: Copy + PartialEq> Fixed<M> {
    /// Whether the joint's derived data reflects its anchors.
    pub closed spec fn is_up_to_date(&self) -> bool {
        self.up_to_date
    }

    /// The first anchor.
    pub closed spec fn first(&self) -> Anchor<M> {
        self.anchor1
    }

    /// The second anchor.
    pub closed spec fn second(&self) -> Anchor<M> {
        self.anchor2
    }

    /// A joint between these anchors, not yet up to date.
    pub fn new(anchor1: Anchor<M>, anchor2: Anchor<M>) -> (res: Self)
        ensures
            !res.is_up_to_date(),
            res.first() == anchor1,
            res.second() == anchor2,
    {
        Fixed { up_to_date: false, anchor1, anchor2 }
    }

    /// Whether the joint's derived data reflects its anchors.
    pub fn up_to_date(&self) -> (res: bool)
        ensures
            res == self.is_up_to_date(),
    {
        self.up_to_date
    }

    /// Marks the joint up to date.
    pub fn update(&mut self)
        ensures
            final(self).is_up_to_date(),
            final(self).first() == old(self).first(),
            final(self).second() == old(self).second(),
    {
        self.up_to_date = true;
    }

    /// The first anchor.
    pub fn anchor1(&self) -> (res: &Anchor<M>)
        ensures
            *res == self.first(),
    {
        &self.anchor1
    }

    /// The second anchor.
    pub fn anchor2(&self) -> (res: &Anchor<M>)
        ensures
            *res == self.second(),
    {
        &self.anchor2
    }

    /// Sets the local position of the first anchor. When it differs from the current one
    /// (by `M`'s `!=`), the anchor moves there and the joint is no longer up to date;
    /// otherwise nothing changes.
    pub fn set_local1(&mut self, local1: M)
        ensures
            final(self).second() == old(self).second(),
            exists|changed: bool|
                (final(self).is_up_to_date(), final(self).first()) == #[trigger] moved(
                    old(self).is_up_to_date(),
                    old(self).first(),
                    local1,
                    changed,
                ),
            M::obeys_eq_spec() ==> (final(self).is_up_to_date(), final(self).first()) == moved(
                old(self).is_up_to_date(),
                old(self).first(),
                local1,
                !local1.eq_spec(&old(self).first().position),
            ),
            final(self).first().body == old(self).first().body,
            final(self).first().position == local1 || (final(self).first() == old(self).first()
                && final(self).is_up_to_date() == old(self).is_up_to_date()),
            !final(self).is_up_to_date() && old(self).is_up_to_date() ==> final(self).first().position
                == local1,
            M::obeys_eq_spec() && !local1.eq_spec(&old(self).first().position) ==> final(self).first().position == local1
                && !final(self).is_up_to_date(),
            M::obeys_eq_spec() && local1.eq_spec(&old(self).first().position) ==> final(self).first() == old(self).first()
                && final(self).is_up_to_date() == old(self).is_up_to_date(),
    {
        let changed = local1 != self.anchor1.position;
        if changed {
            self.up_to_date = false;
            self.anchor1.position = local1;
        }
        assert((self.is_up_to_date(), self.first()) == moved(
            old(self).is_up_to_date(),
            old(self).first(),
            local1,
            changed,
        ));
    }

    /// Sets the local position of the second anchor, as `set_local1` does for the first.
    pub fn set_local2(&mut self, local2: M)
        ensures
            final(self).first() == old(self).first(),
            exists|changed: bool|
                (final(self).is_up_to_date(), final(self).second()) == #[trigger] moved(
                    old(self).is_up_to_date(),
                    old(self).second(),
                    local2,
                    changed,
                ),
            M::obeys_eq_spec() ==> (final(self).is_up_to_date(), final(self).second()) == moved(
                old(self).is_up_to_date(),
                old(self).second(),
                local2,
                !local2.eq_spec(&old(self).second().position),
            ),
            final(self).second().body == old(self).second().body,
            final(self).second().position == local2 || (final(self).second() == old(self).second()
                && final(self).is_up_to_date() == old(self).is_up_to_date()),
            !final(self).is_up_to_date() && old(self).is_up_to_date() ==> final(self).second().position
                == local2,
            M::obeys_eq_spec() && !local2.eq_spec(&old(self).second().position) ==> final(self).second().position == local2
                && !final(self).is_up_to_date(),
            M::obeys_eq_spec() && local2.eq_spec(&old(self).second().position) ==> final(self).second() == old(self).second()
                && final(self).is_up_to_date() == old(self).is_up_to_date(),
    {
        let changed = local2 != self.anchor2.position;
        if changed {
            self.up_to_date = false;
            self.anchor2.position = local2;
        }
        assert((self.is_up_to_date(), self.second()) == moved(
            old(self).is_up_to_date(),
            old(self).second(),
            local2,
            changed,
        ));
    }

    /// Where the first anchor is.
    pub fn anchor1_pos(&self) -> (res: AnchorPosition<M>)
        requires
            anchor_supported(self.first()),
        ensures
            res == anchor_position(self.first()),
    {
        match self.anchor1.body {
            Some(b) => AnchorPosition::OnBody { body: b.key, local: self.anchor1.position },
            None => AnchorPosition::World(self.anchor1.position),
        }
    }

    /// Where the second anchor is.
    pub fn anchor2_pos(&self) -> (res: AnchorPosition<M>)
        requires
            anchor_supported(self.second()),
        ensures
            res == anchor_position(self.second()),
    {
        match self.anchor2.body {
            Some(b) => AnchorPosition::OnBody { body: b.key, local: self.anchor2.position },
            None => AnchorPosition::World(self.anchor2.position),
        }
    }
}

/// Setting an anchor's position: the joint stays up to date only if it was and the position
/// did not change, and an anchor on no body is then where it was set, whenever the change was
/// detected or the new position equals the old one.
pub proof fn lemma_moved_anchor<M>(up_to_date: bool, anchor: Anchor<M>, local: M, changed: bool)
    ensures
        moved(up_to_date, anchor, local, changed).0 == (up_to_date && !changed),
        moved(up_to_date, anchor, local, changed).1.body == anchor.body,
        changed ==> moved(up_to_date, anchor, local, changed).1.position == local,
        !changed ==> moved(up_to_date, anchor, local, changed).1 == anchor,
        anchor.body is None && (changed || anchor.position == local) ==> anchor_position(
            moved(up_to_date, anchor, local, changed).1,
        ) == AnchorPosition::World(local),
{
}

} // verus!
