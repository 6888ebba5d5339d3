//! The authoritative model of one ship: its hull, the part of it that has
//! been destroyed, and the hits that have not been reported yet.
//!
//! A hit is buffered when it happens and handed out when the buffer is
//! drained, so that whoever polls the ship learns of each hit once.

use crate::coord::{contains_coord, Coord};
use vstd::prelude::*;

verus! {

/// The mathematical content of a [`Ship`].
pub struct ShipModel {
    /// The coordinates that the ship occupies, in the order given.
    pub hull: Seq<Coord>,
    /// The coordinates of the hull that were hit, in the order of the hits.
    pub destroyed: Seq<Coord>,
    /// The hits that no drain has handed out yet, in the order of the hits.
    pub pending: Seq<Coord>,
}

/// One operation on a ship.
pub enum ShipOp {
    Shoot(Coord),
    Drain,
}

impl ShipModel {
    /// An undamaged ship on `hull`.
    pub open spec fn fresh(hull: Seq<Coord>) -> ShipModel {
        ShipModel { hull, destroyed: Seq::empty(), pending: Seq::empty() }
    }

    /// Only the hull can be destroyed, only what was destroyed can be
    /// pending, and no coordinate is recorded twice.
    pub open spec fn wf(self) -> bool {
        &&& forall|c: Coord| self.destroyed.contains(c) ==> self.hull.contains(c)
        &&& forall|c: Coord| self.pending.contains(c) ==> self.destroyed.contains(c)
        &&& self.destroyed.no_duplicates()
        &&& self.pending.no_duplicates()
    }

    /// A shot counts where it lands on a part of the hull that is still
    /// intact; anywhere else it changes nothing.
    pub open spec fn scores(self, c: Coord) -> bool {
        self.hull.contains(c) && !self.destroyed.contains(c)
    }

    pub open spec fn shoot_at(self, c: Coord) -> ShipModel {
        if self.scores(c) {
            ShipModel {
                hull: self.hull,
                destroyed: self.destroyed.push(c),
                pending: self.pending.push(c),
            }
        } else {
            self
        }
    }

    /// The ship after its pending hits were handed out.
    pub open spec fn drained(self) -> ShipModel {
        ShipModel { hull: self.hull, destroyed: self.destroyed, pending: Seq::empty() }
    }

    /// Every coordinate of the hull has been hit.
    pub open spec fn is_destroyed(self) -> bool {
        forall|c: Coord| self.hull.contains(c) ==> self.destroyed.contains(c)
    }

    pub open spec fn apply(self, op: ShipOp) -> ShipModel {
        match op {
            ShipOp::Shoot(c) => self.shoot_at(c),
            ShipOp::Drain => self.drained(),
        }
    }

    /// The ship after all of `ops`, in order.
    pub open spec fn run(self, ops: Seq<ShipOp>) -> ShipModel
        decreases ops.len(),
    {
        if ops.len() == 0 {
            self
        } else {
            self.run(ops.drop_last()).apply(ops.last())
        }
    }

    /// Everything that the drains among `ops` handed out, one drain after
    /// the other.
    pub open spec fn delivered(self, ops: Seq<ShipOp>) -> Seq<Coord>
        decreases ops.len(),
    {
        if ops.len() == 0 {
            Seq::empty()
        } else {
            let before = self.delivered(ops.drop_last());
            match ops.last() {
                ShipOp::Shoot(_) => before,
                ShipOp::Drain => before + self.run(ops.drop_last()).pending,
            }
        }
    }
}

/// A shot keeps a ship well formed.
pub proof fn lemma_shoot_keeps_wf(m: ShipModel, c: Coord)
    requires
        m.wf(),
    ensures
        m.shoot_at(c).wf(),
{
    broadcast use vstd::seq_lib::group_seq_properties;

    if m.scores(c) {
        let after = m.shoot_at(c);
        assert(!m.pending.contains(c));
        assert forall|i: int, j: int|
            0 <= i < after.destroyed.len() && 0 <= j < after.destroyed.len() && i != j implies after.destroyed[i]
            != after.destroyed[j] by {
            if i < m.destroyed.len() {
                assert(m.destroyed.contains(m.destroyed[i]));
            }
            if j < m.destroyed.len() {
                assert(m.destroyed.contains(m.destroyed[j]));
            }
        }
        assert forall|i: int, j: int|
            0 <= i < after.pending.len() && 0 <= j < after.pending.len() && i != j implies after.pending[i]
            != after.pending[j] by {
            if i < m.pending.len() {
                assert(m.pending.contains(m.pending[i]));
            }
            if j < m.pending.len() {
                assert(m.pending.contains(m.pending[j]));
            }
        }
    }
}

/// A drain keeps a ship well formed.
pub proof fn lemma_drain_keeps_wf(m: ShipModel)
    requires
        m.wf(),
    ensures
        m.drained().wf(),
{
    broadcast use vstd::seq_lib::group_seq_properties;

}

/// Shooting twice at a coordinate leaves the ship as one shot does.
pub proof fn lemma_shoot_is_idempotent(m: ShipModel, c: Coord)
    ensures
        m.shoot_at(c).shoot_at(c) == m.shoot_at(c),
{
    broadcast use vstd::seq_lib::group_seq_properties;

    if m.scores(c) {
        assert(m.destroyed.push(c).contains(c)) by {
            assert(m.destroyed.push(c)[m.destroyed.len() as int] == c);
        }
    }
}

/// Whatever is done to a ship, in whatever order, the destroyed coordinates
/// stay within its hull, and the pending ones within the destroyed.
pub proof fn lemma_hull_invariant(hull: Seq<Coord>, ops: Seq<ShipOp>)
    ensures
        ShipModel::fresh(hull).run(ops).wf(),
        ShipModel::fresh(hull).run(ops).hull == hull,
        forall|c: Coord|
            ShipModel::fresh(hull).run(ops).destroyed.contains(c) ==> hull.contains(c),
    decreases ops.len(),
{
    broadcast use vstd::seq_lib::group_seq_properties;

    if ops.len() > 0 {
        lemma_hull_invariant(hull, ops.drop_last());
        let before = ShipModel::fresh(hull).run(ops.drop_last());
        match ops.last() {
            ShipOp::Shoot(c) => lemma_shoot_keeps_wf(before, c),
            ShipOp::Drain => lemma_drain_keeps_wf(before),
        }
    }
}

/// Over the life of a ship, what the drains handed out, followed by what is
/// still pending, is the list of its destroyed coordinates, and that list
/// holds no coordinate twice. So each hit is handed out by at most one
/// drain, once, and a shot at a coordinate that is already destroyed
/// brings nothing back.
pub proof fn lemma_each_hit_reported_once(hull: Seq<Coord>, ops: Seq<ShipOp>)
    ensures
        ShipModel::fresh(hull).delivered(ops) + ShipModel::fresh(hull).run(ops).pending
            == ShipModel::fresh(hull).run(ops).destroyed,
        ShipModel::fresh(hull).run(ops).destroyed.no_duplicates(),
    decreases ops.len(),
{
    let start = ShipModel::fresh(hull);
    lemma_hull_invariant(hull, ops);
    if ops.len() == 0 {
        assert(start.delivered(ops) + start.run(ops).pending =~= start.run(ops).destroyed);
    } else {
        let earlier = ops.drop_last();
        lemma_each_hit_reported_once(hull, earlier);
        let before = start.run(earlier);
        let out = start.delivered(earlier);
        match ops.last() {
            ShipOp::Shoot(c) => {
                if before.scores(c) {
                    assert(out + before.pending.push(c) =~= (out + before.pending).push(c));
                }
            },
            ShipOp::Drain => {
                assert((out + before.pending) + Seq::<Coord>::empty() =~= out + before.pending);
            },
        }
    }
}

/// A drain that follows a drain at once hands out nothing.
pub proof fn lemma_second_drain_is_empty(m: ShipModel)
    ensures
        m.drained().pending.len() == 0,
        m.drained().drained() == m.drained(),
{
}

/// On a hull that holds no coordinate twice, a ship is destroyed exactly when
/// as many coordinates are destroyed as the hull has.
pub proof fn lemma_destroyed_by_count(m: ShipModel)
    requires
        m.wf(),
        m.hull.no_duplicates(),
    ensures
        m.is_destroyed() <==> m.destroyed.len() == m.hull.len(),
        m.destroyed.len() <= m.hull.len(),
{
    broadcast use vstd::seq_lib::group_seq_properties;

    let h = m.hull.to_set();
    let d = m.destroyed.to_set();
    m.hull.unique_seq_to_set();
    m.destroyed.unique_seq_to_set();
    vstd::seq_lib::seq_to_set_is_finite(m.hull);
    vstd::seq_lib::seq_to_set_is_finite(m.destroyed);
    assert(d.subset_of(h)) by {
        assert forall|c: Coord| d.contains(c) implies h.contains(c) by {
            assert(m.destroyed.contains(c));
        }
    }
    vstd::set_lib::lemma_len_subset(d, h);
    if m.is_destroyed() {
        assert(h.subset_of(d)) by {
            assert forall|c: Coord| h.contains(c) implies d.contains(c) by {
                assert(m.hull.contains(c));
            }
        }
        vstd::set_lib::lemma_len_subset(h, d);
    }
    if m.destroyed.len() == m.hull.len() {
        vstd::set_lib::lemma_subset_equality(d, h);
        assert forall|c: Coord| m.hull.contains(c) implies m.destroyed.contains(c) by {
            assert(h.contains(c));
            assert(d.contains(c));
        }
    }
}

/// One ship of the authoritative side.
#[derive(Clone, Debug)]
pub struct Ship {
    coords: Vec<Coord>,
    destroyed_coords: Vec<Coord>,
    reported_hit_coords: Vec<Coord>,
}

impl View for Ship {
    type V = ShipModel;

    closed spec fn view(&self) -> ShipModel {
        ShipModel {
            hull: self.coords@,
            destroyed: self.destroyed_coords@,
            pending: self.reported_hit_coords@,
        }
    }
}

impl Ship {
    /// The content is well formed. This holds of every ship that `new` made,
    /// whatever was done to it since.
    pub open spec fn wf(&self) -> bool {
        self@.wf()
    }

    /// An undamaged ship that occupies `coords`.
    pub fn new(coords: Vec<Coord>) -> (ship: Ship)
        ensures
            ship@ == ShipModel::fresh(coords@),
            ship.wf(),
    {
        broadcast use vstd::seq_lib::group_seq_properties;

        Ship { coords, destroyed_coords: Vec::new(), reported_hit_coords: Vec::new() }
    }

    /// Resolves a shot at `coord`: a first hit on the hull is recorded as
    /// destroyed and buffered for the next drain; a miss or a repeated hit
    /// changes nothing.
    pub fn shoot_at(&mut self, coord: &Coord)
        ensures
            final(self)@ == old(self)@.shoot_at(*coord),
            old(self).wf() ==> final(self).wf(),
    {
        proof {
            if self.wf() {
                lemma_shoot_keeps_wf(self@, *coord);
            }
        }
        if contains_coord(&self.coords, *coord) && !contains_coord(&self.destroyed_coords, *coord) {
            self.destroyed_coords.push(*coord);
            self.reported_hit_coords.push(*coord);
        }
    }

    /// Drains the buffer of pending hits: returns them in the order in which
    /// they happened and leaves the buffer empty.
    pub fn get_hit_coords(&mut self) -> (report: Vec<Coord>)
        ensures
            report@ == old(self)@.pending,
            final(self)@ == old(self)@.drained(),
            old(self).wf() ==> final(self).wf(),
    {
        proof {
            if self.wf() {
                lemma_drain_keeps_wf(self@);
            }
        }
        let mut report: Vec<Coord> = Vec::new();
        std::mem::swap(&mut report, &mut self.reported_hit_coords);
        report
    }

    /// Whether every coordinate of the hull has been hit.
    pub fn is_destroyed(&self) -> (sunk: bool)
        ensures
            sunk == self@.is_destroyed(),
    {
        let mut i: usize = 0;
        while i < self.coords.len()
            invariant
                i <= self.coords.len(),
                forall|j: int| 0 <= j < i ==> self.destroyed_coords@.contains(self.coords@[j]),
            decreases self.coords.len() - i,
        {
            if !contains_coord(&self.destroyed_coords, self.coords[i]) {
                proof {
                    assert(self@.hull.contains(self.coords@[i as int]));
                }
                return false;
            }
            i += 1;
        }
        proof {
            assert forall|c: Coord| self@.hull.contains(c) implies self@.destroyed.contains(c) by {
                let j = choose|j: int| 0 <= j < self.coords@.len() && self.coords@[j] == c;
                assert(self.destroyed_coords@.contains(self.coords@[j]));
            }
        }
        true
    }

    /// The hull.
    pub fn coords(&self) -> (hull: &Vec<Coord>)
        ensures
            hull@ == self@.hull,
    {
        &self.coords
    }

    /// The coordinates destroyed so far, in the order of the hits.
    pub fn destroyed_coords(&self) -> (hits: &Vec<Coord>)
        ensures
            hits@ == self@.destroyed,
    {
        &self.destroyed_coords
    }

    /// The hits that wait for the next drain, in the order of the hits.
    pub fn reported_hit_coords(&self) -> (hits: &Vec<Coord>)
        ensures
            hits@ == self@.pending,
    {
        &self.reported_hit_coords
    }

    /// How many hits wait for the next drain.
    pub fn pending_hits(&self) -> (n: usize)
        ensures
            n == self@.pending.len(),
    {
        self.reported_hit_coords.len()
    }
}

} // verus!
