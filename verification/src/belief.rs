//! What the targeting engine believes of the opponent's board: the status
//! of each cell and the clusters of hits that are not resolved yet. This
//! module states, as mathematics, the rule that picks the next shot and what
//! hits, misses and sinkings do to the beliefs, and proves what follows from
//! them. The engine itself is in [`crate::targeting`].

use crate::coord::Coord;
use crate::placement::{run_cell, run_fits, Run};
use vstd::prelude::*;

verus! {

/// What is known of one cell of the opponent's board.
#[derive(Clone, Copy, Debug, PartialEq, Eq, Structural)]
pub enum BeliefCell {
    /// Never shot at.
    Unknown,
    /// Shot at, and nothing was there.
    Miss,
    /// Shot at, and a ship was struck that is not known to be sunk.
    Hit,
    /// Part of the sunk ship with the given number.
    SunkPartOf(u64),
}

/// The direction in which a cluster of hits extends.
#[derive(Clone, Copy, Debug, PartialEq, Eq, Structural)]
pub enum Axis {
    /// A single hit: the ship may lie either way.
    Undetermined,
    Horizontal,
    Vertical,
}

/// An active cluster: an unbroken straight line of hits on a ship that is
/// not known to be sunk, from `lo`, its upper or left end, to `hi`.
#[derive(Clone, Copy, Debug, PartialEq, Eq, Structural)]
pub struct Cluster {
    pub lo: Coord,
    pub hi: Coord,
}

/// Whether `a` comes before `b` when the grid is read row by row, each row
/// from left to right.
pub open spec fn before(a: Coord, b: Coord) -> bool {
    a.y < b.y || (a.y == b.y && a.x < b.x)
}

/// The hunt pattern: a cell belongs to it when the sum of its coordinates is
/// a multiple of `modulus`.
pub open spec fn in_hunt_class(c: Coord, modulus: int) -> bool {
    (c.x + c.y) % modulus == 0
}

impl Cluster {
    /// The cluster of a single hit.
    pub open spec fn single(c: Coord) -> Cluster {
        Cluster { lo: c, hi: c }
    }

    /// The two ends lie on one row or on one column, `lo` first.
    pub open spec fn ordered(self) -> bool {
        (self.lo.x == self.hi.x && self.lo.y <= self.hi.y) || (self.lo.y == self.hi.y
            && self.lo.x <= self.hi.x)
    }

    /// Both ends are far enough from the limits of the coordinates' type for
    /// their neighbours to have coordinates.
    pub open spec fn roomy(self) -> bool {
        &&& 0 <= self.lo.x
        &&& 0 <= self.lo.y
        &&& self.hi.x < i32::MAX
        &&& self.hi.y < i32::MAX
    }

    /// Whether `c` is one of the hits of the cluster.
    pub open spec fn covers(self, c: Coord) -> bool {
        self.lo.x <= c.x <= self.hi.x && self.lo.y <= c.y <= self.hi.y
    }

    /// The axis is known once the cluster has two hits.
    pub open spec fn axis_of(self) -> Axis {
        if self.lo == self.hi {
            Axis::Undetermined
        } else if self.lo.y == self.hi.y {
            Axis::Horizontal
        } else {
            Axis::Vertical
        }
    }

    /// The cell above the upper end.
    pub open spec fn up(self) -> Coord {
        Coord { x: self.lo.x, y: (self.lo.y - 1) as i32 }
    }

    /// The cell below the lower end.
    pub open spec fn down(self) -> Coord {
        Coord { x: self.hi.x, y: (self.hi.y + 1) as i32 }
    }

    /// The cell to the left of the left end.
    pub open spec fn left(self) -> Coord {
        Coord { x: (self.lo.x - 1) as i32, y: self.lo.y }
    }

    /// The cell to the right of the right end.
    pub open spec fn right(self) -> Coord {
        Coord { x: (self.hi.x + 1) as i32, y: self.hi.y }
    }

    /// The cells to probe next, in the order of their priority. Around a
    /// single hit: up, down, left, right. Once the axis is known, only the
    /// two cells that prolong the line: up and down on a vertical axis, left
    /// and right on a horizontal one.
    pub open spec fn probes(self) -> Seq<Coord> {
        match self.axis_of() {
            Axis::Undetermined => seq![self.up(), self.down(), self.left(), self.right()],
            Axis::Vertical => seq![self.up(), self.down()],
            Axis::Horizontal => seq![self.left(), self.right()],
        }
    }

    /// Whether `c` is one of the probes.
    pub open spec fn has_probe(self, c: Coord) -> bool {
        match self.axis_of() {
            Axis::Undetermined => c == self.up() || c == self.down() || c == self.left() || c
                == self.right(),
            Axis::Vertical => c == self.up() || c == self.down(),
            Axis::Horizontal => c == self.left() || c == self.right(),
        }
    }

    /// The cluster with `c` added at the end that it prolongs.
    pub open spec fn extended(self, c: Coord) -> Cluster {
        Cluster {
            lo: Coord {
                x: if c.x < self.lo.x {
                    c.x
                } else {
                    self.lo.x
                },
                y: if c.y < self.lo.y {
                    c.y
                } else {
                    self.lo.y
                },
            },
            hi: Coord {
                x: if c.x > self.hi.x {
                    c.x
                } else {
                    self.hi.x
                },
                y: if c.y > self.hi.y {
                    c.y
                } else {
                    self.hi.y
                },
            },
        }
    }
}

impl Cluster {
    /// The axis of the cluster.
    pub fn axis(&self) -> (a: Axis)
        ensures
            a == self.axis_of(),
    {
        if self.lo.x == self.hi.x && self.lo.y == self.hi.y {
            Axis::Undetermined
        } else if self.lo.y == self.hi.y {
            Axis::Horizontal
        } else {
            Axis::Vertical
        }
    }

    /// Whether `c` is one of the hits of the cluster.
    pub fn includes(&self, c: Coord) -> (b: bool)
        ensures
            b == self.covers(c),
    {
        self.lo.x <= c.x && c.x <= self.hi.x && self.lo.y <= c.y && c.y <= self.hi.y
    }

    /// The cells to probe next, in the order of their priority.
    pub fn probe_list(&self) -> (probes: Vec<Coord>)
        requires
            self.roomy(),
        ensures
            probes@ == self.probes(),
    {
        let up = Coord { x: self.lo.x, y: self.lo.y - 1 };
        let down = Coord { x: self.hi.x, y: self.hi.y + 1 };
        let left = Coord { x: self.lo.x - 1, y: self.lo.y };
        let right = Coord { x: self.hi.x + 1, y: self.hi.y };
        let mut probes: Vec<Coord> = Vec::new();
        match self.axis() {
            Axis::Undetermined => {
                probes.push(up);
                probes.push(down);
                probes.push(left);
                probes.push(right);
            },
            Axis::Vertical => {
                probes.push(up);
                probes.push(down);
            },
            Axis::Horizontal => {
                probes.push(left);
                probes.push(right);
            },
        }
        proof {
            assert(probes@ =~= self.probes());
        }
        probes
    }

    /// Whether `c` is one of the probes.
    pub fn is_probe(&self, c: Coord) -> (b: bool)
        requires
            self.roomy(),
        ensures
            b == self.has_probe(c),
    {
        let up = Coord { x: self.lo.x, y: self.lo.y - 1 };
        let down = Coord { x: self.hi.x, y: self.hi.y + 1 };
        let left = Coord { x: self.lo.x - 1, y: self.lo.y };
        let right = Coord { x: self.hi.x + 1, y: self.hi.y };
        match self.axis() {
            Axis::Undetermined => c == up || c == down || c == left || c == right,
            Axis::Vertical => c == up || c == down,
            Axis::Horizontal => c == left || c == right,
        }
    }

    /// The cluster with `c` added at the end that it prolongs.
    pub fn extend(&self, c: Coord) -> (grown: Cluster)
        ensures
            grown == self.extended(c),
    {
        Cluster {
            lo: Coord {
                x: if c.x < self.lo.x {
                    c.x
                } else {
                    self.lo.x
                },
                y: if c.y < self.lo.y {
                    c.y
                } else {
                    self.lo.y
                },
            },
            hi: Coord {
                x: if c.x > self.hi.x {
                    c.x
                } else {
                    self.hi.x
                },
                y: if c.y > self.hi.y {
                    c.y
                } else {
                    self.hi.y
                },
            },
        }
    }
}

/// The probes of a cluster are the cells that `has_probe` names.
pub proof fn lemma_probes_are_named(cl: Cluster, c: Coord)
    ensures
        cl.probes().contains(c) <==> cl.has_probe(c),
{
    let ps = cl.probes();
    if cl.has_probe(c) {
        if c == ps[0] {
        } else if c == ps[1] {
        } else if ps.len() == 4 && c == ps[2] {
        } else {
            assert(ps.len() == 4 && c == ps[3]);
        }
    }
}

/// A cluster that grows by one of its probes stays a straight line, and
/// gains that one cell.
pub proof fn lemma_extended_covers(cl: Cluster, c: Coord)
    requires
        cl.ordered(),
        cl.roomy(),
        cl.has_probe(c),
    ensures
        cl.extended(c).ordered(),
        cl.extended(c).axis_of() != Axis::Undetermined,
        forall|p: Coord| cl.extended(c).covers(p) <==> (cl.covers(p) || p == c),
        cl.axis_of() != Axis::Undetermined ==> cl.extended(c).axis_of() == cl.axis_of(),
{
}

/// Once the axis of a cluster is known, its probes lie on its line: on the
/// column of a vertical cluster, just above its upper end or just below its
/// lower end, and on the row of a horizontal cluster, just left of its left
/// end or just right of its right end. The cells beside the line are never
/// probed.
pub proof fn lemma_probes_stay_on_axis(cl: Cluster, c: Coord)
    requires
        cl.ordered(),
        cl.roomy(),
        cl.has_probe(c),
    ensures
        cl.axis_of() == Axis::Vertical ==> c.x == cl.lo.x && (c.y == cl.lo.y - 1 || c.y == cl.hi.y
            + 1),
        cl.axis_of() == Axis::Horizontal ==> c.y == cl.lo.y && (c.x == cl.lo.x - 1 || c.x
            == cl.hi.x + 1),
        !cl.covers(c),
{
}

/// The first cluster from `from` on that has `c` among its probes.
pub open spec fn attach_index(clusters: Seq<Cluster>, c: Coord, from: int) -> Option<int>
    decreases clusters.len() - from,
{
    if from < 0 || from >= clusters.len() {
        None
    } else if clusters[from].has_probe(c) {
        Some(from)
    } else {
        attach_index(clusters, c, from + 1)
    }
}

/// The first cluster from `from` on that covers `c`.
pub open spec fn cover_index(clusters: Seq<Cluster>, c: Coord, from: int) -> Option<int>
    decreases clusters.len() - from,
{
    if from < 0 || from >= clusters.len() {
        None
    } else if clusters[from].covers(c) {
        Some(from)
    } else {
        cover_index(clusters, c, from + 1)
    }
}

pub proof fn lemma_attach_index(clusters: Seq<Cluster>, c: Coord, from: int)
    requires
        0 <= from,
    ensures
        match attach_index(clusters, c, from) {
            Some(i) => from <= i < clusters.len() && clusters[i].has_probe(c),
            None => forall|j: int| from <= j < clusters.len() ==> !clusters[j].has_probe(c),
        },
    decreases clusters.len() - from,
{
    if from < clusters.len() && !clusters[from].has_probe(c) {
        lemma_attach_index(clusters, c, from + 1);
    }
}

pub proof fn lemma_cover_index(clusters: Seq<Cluster>, c: Coord, from: int)
    requires
        0 <= from,
    ensures
        match cover_index(clusters, c, from) {
            Some(i) => from <= i < clusters.len() && clusters[i].covers(c),
            None => forall|j: int| from <= j < clusters.len() ==> !clusters[j].covers(c),
        },
    decreases clusters.len() - from,
{
    if from < clusters.len() && !clusters[from].covers(c) {
        lemma_cover_index(clusters, c, from + 1);
    }
}

/// The mathematical content of a targeting engine.
pub struct EngineModel {
    pub height: int,
    pub width: int,
    /// The modulus of the hunt pattern: the length of the shortest ship.
    pub modulus: int,
    /// The status of each cell of the grid.
    pub beliefs: Map<Coord, BeliefCell>,
    /// The active clusters, the oldest first.
    pub clusters: Seq<Cluster>,
    /// The number that the next sunk ship gets.
    pub sunk: u64,
}

impl EngineModel {
    /// An engine that knows nothing yet.
    pub open spec fn fresh(height: int, width: int, modulus: int) -> EngineModel {
        EngineModel {
            height,
            width,
            modulus,
            beliefs: Map::new(|c: Coord| c.in_grid(height, width), |c: Coord| BeliefCell::Unknown),
            clusters: Seq::empty(),
            sunk: 0,
        }
    }

    /// Cluster `i` is a straight line on the grid, and each of its cells is
    /// believed to be a hit.
    pub open spec fn cluster_ok(self, i: int) -> bool {
        let cl = self.clusters[i];
        &&& cl.ordered()
        &&& cl.lo.in_grid(self.height, self.width)
        &&& cl.hi.in_grid(self.height, self.width)
        &&& forall|p: Coord| #[trigger] cl.covers(p) ==> self.beliefs[p] == BeliefCell::Hit
    }

    /// The grid has a status for each of its cells, the clusters are lines of
    /// hits on the grid, and no two clusters share a cell.
    pub open spec fn wf(self) -> bool {
        &&& 0 <= self.height <= i32::MAX
        &&& 0 <= self.width <= i32::MAX
        &&& 1 <= self.modulus
        &&& forall|c: Coord|
            self.beliefs.dom().contains(c) <==> c.in_grid(self.height, self.width)
        &&& forall|i: int| 0 <= i < self.clusters.len() ==> #[trigger] self.cluster_ok(i)
        &&& forall|i: int, j: int, p: Coord|
            0 <= i < self.clusters.len() && 0 <= j < self.clusters.len() && i != j
                && #[trigger] self.clusters[i].covers(p) ==> !#[trigger] self.clusters[j].covers(
                p,
            )
    }

    /// Whether `c` is a cell of the grid that was never shot at.
    pub open spec fn unknown(self, c: Coord) -> bool {
        c.in_grid(self.height, self.width) && self.beliefs[c] == BeliefCell::Unknown
    }

    /// Whether `c` can be proposed: it was never shot at and is not among
    /// the cells `excluded`, those already proposed for this turn.
    pub open spec fn open_to(self, excluded: Seq<Coord>, c: Coord) -> bool {
        self.unknown(c) && !excluded.contains(c)
    }

    /// Whether `c` belongs to the hunt pattern of this engine.
    pub open spec fn in_class(self, c: Coord) -> bool {
        in_hunt_class(c, self.modulus)
    }

    /// Whether a scan may stop at `c`: the cell can be proposed and, where
    /// only the hunt pattern is scanned, belongs to it.
    pub open spec fn eligible(self, excluded: Seq<Coord>, class_only: bool, c: Coord) -> bool {
        self.open_to(excluded, c) && (class_only ==> self.in_class(c))
    }

    /// The first of `probes`, from index `from` on, that can be proposed.
    pub open spec fn first_open(self, excluded: Seq<Coord>, probes: Seq<Coord>, from: int) -> Option<
        Coord,
    >
        decreases probes.len() - from,
    {
        if from < 0 || from >= probes.len() {
            None
        } else if self.open_to(excluded, probes[from]) {
            Some(probes[from])
        } else {
            self.first_open(excluded, probes, from + 1)
        }
    }

    /// Target mode: the first probe that can be proposed, of the first
    /// cluster from `from` on that has one.
    pub open spec fn target_pick(self, excluded: Seq<Coord>, from: int) -> Option<Coord>
        decreases self.clusters.len() - from,
    {
        if from < 0 || from >= self.clusters.len() {
            None
        } else {
            match self.first_open(excluded, self.clusters[from].probes(), 0) {
                Some(c) => Some(c),
                None => self.target_pick(excluded, from + 1),
            }
        }
    }

    /// The first eligible cell at or after column `x` of row `y`, reading
    /// the grid row by row, each row from left to right.
    pub open spec fn scan_from(
        self,
        excluded: Seq<Coord>,
        class_only: bool,
        y: int,
        x: int,
    ) -> Option<Coord>
        decreases self.height - y, self.width - x,
    {
        if y < 0 || x < 0 || y >= self.height {
            None
        } else if x >= self.width {
            self.scan_from(excluded, class_only, y + 1, 0)
        } else {
            let c = Coord { x: x as i32, y: y as i32 };
            if self.eligible(excluded, class_only, c) {
                Some(c)
            } else {
                self.scan_from(excluded, class_only, y, x + 1)
            }
        }
    }

    /// Hunt mode: the first cell of the hunt pattern that can be proposed,
    /// and where the pattern is used up, the first cell that can be proposed
    /// at all.
    pub open spec fn hunt_pick(self, excluded: Seq<Coord>) -> Option<Coord> {
        match self.scan_from(excluded, true, 0, 0) {
            Some(c) => Some(c),
            None => self.scan_from(excluded, false, 0, 0),
        }
    }

    /// The next cell to propose: from a cluster where one has a probe left,
    /// else from the hunt.
    pub open spec fn next_shot(self, excluded: Seq<Coord>) -> Option<Coord> {
        match self.target_pick(excluded, 0) {
            Some(c) => Some(c),
            None => self.hunt_pick(excluded),
        }
    }

    /// The shots of one turn: up to `count` cells, each picked as the next
    /// shot with those picked before it excluded. Fewer only where nothing
    /// is left to propose.
    pub open spec fn selection(self, excluded: Seq<Coord>, count: nat) -> Seq<Coord>
        decreases count,
    {
        if count == 0 {
            Seq::empty()
        } else {
            match self.next_shot(excluded) {
                None => Seq::empty(),
                Some(c) => seq![c] + self.selection(excluded.push(c), (count - 1) as nat),
            }
        }
    }

    /// A miss is recorded on a cell of the grid that was never shot at;
    /// elsewhere it changes nothing.
    pub open spec fn record_miss(self, c: Coord) -> EngineModel {
        if self.unknown(c) {
            EngineModel { beliefs: self.beliefs.insert(c, BeliefCell::Miss), ..self }
        } else {
            self
        }
    }

    pub open spec fn record_misses(self, coords: Seq<Coord>) -> EngineModel
        decreases coords.len(),
    {
        if coords.len() == 0 {
            self
        } else {
            self.record_misses(coords.drop_last()).record_miss(coords.last())
        }
    }

    /// Whether a hit at `c` is news: `c` is a cell of the grid that is not
    /// yet believed to be a hit or part of a sunk ship.
    pub open spec fn hit_is_new(self, c: Coord) -> bool {
        &&& c.in_grid(self.height, self.width)
        &&& self.beliefs[c] != BeliefCell::Hit
        &&& !(self.beliefs[c] is SunkPartOf)
    }

    /// A new hit is recorded on its cell and joins the first cluster that it
    /// prolongs; where it prolongs none, it starts a cluster of its own. A
    /// hit that is no news changes nothing.
    pub open spec fn record_hit(self, c: Coord) -> EngineModel {
        if !self.hit_is_new(c) {
            self
        } else {
            EngineModel {
                beliefs: self.beliefs.insert(c, BeliefCell::Hit),
                clusters: match attach_index(self.clusters, c, 0) {
                    Some(i) => self.clusters.update(i, self.clusters[i].extended(c)),
                    None => self.clusters.push(Cluster::single(c)),
                },
                ..self
            }
        }
    }

    pub open spec fn record_hits(self, coords: Seq<Coord>) -> EngineModel
        decreases coords.len(),
    {
        if coords.len() == 0 {
            self
        } else {
            self.record_hits(coords.drop_last()).record_hit(coords.last())
        }
    }

    /// The number for the ship that is sunk after this one.
    pub open spec fn next_number(self) -> u64 {
        if self.sunk < u64::MAX {
            (self.sunk + 1) as u64
        } else {
            self.sunk
        }
    }

    /// A ship was sunk at `c`: every cell of the first cluster that covers
    /// `c` becomes part of a sunk ship with a number of its own, and the
    /// cluster is dropped. Where no cluster covers `c`, nothing changes.
    pub open spec fn record_sunk(self, c: Coord) -> EngineModel {
        match cover_index(self.clusters, c, 0) {
            None => self,
            Some(i) => EngineModel {
                beliefs: Map::new(
                    |p: Coord| self.beliefs.dom().contains(p),
                    |p: Coord|
                        if self.clusters[i].covers(p) {
                            BeliefCell::SunkPartOf(self.sunk)
                        } else {
                            self.beliefs[p]
                        },
                ),
                clusters: self.clusters.remove(i),
                sunk: self.next_number(),
                ..self
            },
        }
    }
}

/// An engine that knows nothing is well formed.
pub proof fn lemma_fresh_is_wf(height: int, width: int, modulus: int)
    requires
        0 <= height <= i32::MAX,
        0 <= width <= i32::MAX,
        1 <= modulus,
    ensures
        EngineModel::fresh(height, width, modulus).wf(),
{
}

/// A miss keeps the beliefs well formed.
pub proof fn lemma_record_miss_keeps_wf(m: EngineModel, c: Coord)
    requires
        m.wf(),
    ensures
        m.record_miss(c).wf(),
{
    let after = m.record_miss(c);
    if m.unknown(c) {
        assert forall|i: int| 0 <= i < after.clusters.len() implies #[trigger] after.cluster_ok(
            i,
        ) by {
            assert(m.cluster_ok(i));
        }
    }
}

/// A hit keeps the beliefs well formed.
pub proof fn lemma_record_hit_keeps_wf(m: EngineModel, c: Coord)
    requires
        m.wf(),
    ensures
        m.record_hit(c).wf(),
{
    let after = m.record_hit(c);
    if m.hit_is_new(c) {
        assert forall|i: int| 0 <= i < m.clusters.len() implies !(#[trigger] m.clusters[i]).covers(
            c,
        ) by {
            assert(m.cluster_ok(i));
        }
        lemma_attach_index(m.clusters, c, 0);
        match attach_index(m.clusters, c, 0) {
            Some(a) => {
                assert(m.cluster_ok(a));
                lemma_extended_covers(m.clusters[a], c);
                assert forall|i: int| 0 <= i < after.clusters.len() implies #[trigger] after.cluster_ok(
                    i,
                ) by {
                    assert(m.cluster_ok(i));
                    assert forall|p: Coord| #[trigger]
                        after.clusters[i].covers(p) implies after.beliefs[p]
                        == BeliefCell::Hit by {
                        if i == a {
                            assert(m.clusters[a].extended(c).covers(p));
                            assert(m.clusters[a].covers(p) || p == c);
                        } else {
                            assert(m.clusters[i].covers(p));
                        }
                    }
                }
                assert forall|i: int, j: int, p: Coord|
                    0 <= i < after.clusters.len() && 0 <= j < after.clusters.len() && i != j
                        && #[trigger] after.clusters[i].covers(
                        p,
                    ) implies !#[trigger] after.clusters[j].covers(p) by {
                    if i == a {
                        if p != c {
                            assert(m.clusters[i].covers(p));
                        }
                        assert(after.clusters[j] == m.clusters[j]);
                    } else if j == a {
                        assert(m.clusters[i].covers(p));
                        if after.clusters[j].covers(p) {
                            assert(m.clusters[j].covers(p) || p == c);
                        }
                    } else {
                        assert(m.clusters[i].covers(p));
                    }
                }
            },
            None => {
                let n = m.clusters.len() as int;
                assert forall|i: int| 0 <= i < after.clusters.len() implies #[trigger] after.cluster_ok(
                    i,
                ) by {
                    if i < n {
                        assert(m.cluster_ok(i));
                    }
                }
                assert forall|i: int, j: int, p: Coord|
                    0 <= i < after.clusters.len() && 0 <= j < after.clusters.len() && i != j
                        && #[trigger] after.clusters[i].covers(
                        p,
                    ) implies !#[trigger] after.clusters[j].covers(p) by {
                    if i < n && j < n {
                        assert(m.clusters[i].covers(p));
                    } else if i < n {
                        assert(m.clusters[i].covers(p));
                    } else {
                        assert(p == c);
                        if after.clusters[j].covers(p) {
                            assert(m.clusters[j].covers(c));
                        }
                    }
                }
            },
        }
    }
}

/// A sinking keeps the beliefs well formed.
pub proof fn lemma_record_sunk_keeps_wf(m: EngineModel, c: Coord)
    requires
        m.wf(),
    ensures
        m.record_sunk(c).wf(),
{
    let after = m.record_sunk(c);
    lemma_cover_index(m.clusters, c, 0);
    match cover_index(m.clusters, c, 0) {
        None => {},
        Some(s) => {
            let old_of = |i: int|
                if i < s {
                    i
                } else {
                    i + 1
                };
            assert forall|i: int| 0 <= i < after.clusters.len() implies after.clusters[i]
                == m.clusters[old_of(i)] by {}
            assert forall|i: int| 0 <= i < after.clusters.len() implies #[trigger] after.cluster_ok(
                i,
            ) by {
                let o = old_of(i);
                assert(m.cluster_ok(o));
                assert forall|p: Coord| #[trigger]
                    after.clusters[i].covers(p) implies after.beliefs[p] == BeliefCell::Hit by {
                    assert(m.clusters[o].covers(p));
                    assert(!m.clusters[s].covers(p));
                }
            }
            assert forall|i: int, j: int, p: Coord|
                0 <= i < after.clusters.len() && 0 <= j < after.clusters.len() && i != j
                    && #[trigger] after.clusters[i].covers(
                    p,
                ) implies !#[trigger] after.clusters[j].covers(p) by {
                assert(m.clusters[old_of(i)].covers(p));
                assert(after.clusters[j] == m.clusters[old_of(j)]);
            }
        },
    }
}

/// Any number of misses keep the beliefs well formed.
pub proof fn lemma_record_misses_keeps_wf(m: EngineModel, coords: Seq<Coord>)
    requires
        m.wf(),
    ensures
        m.record_misses(coords).wf(),
    decreases coords.len(),
{
    if coords.len() > 0 {
        lemma_record_misses_keeps_wf(m, coords.drop_last());
        lemma_record_miss_keeps_wf(m.record_misses(coords.drop_last()), coords.last());
    }
}

/// A miss, a hit or a sinking never makes a cell unknown again: what is
/// unknown afterwards was unknown before. And the cell of a recorded miss or
/// hit is not unknown afterwards.
pub proof fn lemma_marks_are_kept(m: EngineModel, c: Coord, d: Coord)
    requires
        m.wf(),
    ensures
        m.record_miss(c).unknown(d) ==> m.unknown(d),
        m.record_hit(c).unknown(d) ==> m.unknown(d),
        m.record_sunk(c).unknown(d) ==> m.unknown(d),
        !m.record_miss(c).unknown(c),
        !m.record_hit(c).unknown(c),
{
    lemma_cover_index(m.clusters, c, 0);
    match cover_index(m.clusters, c, 0) {
        Some(i) => {
            assert(m.cluster_ok(i));
        },
        None => {},
    }
}

/// After the misses at `coords` were recorded, none of `coords` is unknown,
/// and what is unknown was unknown before.
pub proof fn lemma_misses_leave_none_unknown(m: EngineModel, coords: Seq<Coord>, d: Coord)
    requires
        m.wf(),
    ensures
        m.record_misses(coords).unknown(d) ==> m.unknown(d) && !coords.contains(d),
    decreases coords.len(),
{
    if coords.len() > 0 {
        let before = m.record_misses(coords.drop_last());
        lemma_record_misses_keeps_wf(m, coords.drop_last());
        lemma_misses_leave_none_unknown(m, coords.drop_last(), d);
        lemma_marks_are_kept(before, coords.last(), d);
        if m.record_misses(coords).unknown(d) && coords.contains(d) {
            let k = choose|k: int| 0 <= k < coords.len() && coords[k] == d;
            if k < coords.len() - 1 {
                assert(coords.drop_last()[k] == d);
            }
        }
    }
}

/// Whatever hits are recorded, what is unknown afterwards was unknown before.
pub proof fn lemma_hits_leave_marks(m: EngineModel, coords: Seq<Coord>, d: Coord)
    requires
        m.wf(),
    ensures
        m.record_hits(coords).unknown(d) ==> m.unknown(d),
    decreases coords.len(),
{
    if coords.len() > 0 {
        lemma_record_hits_keeps_wf(m, coords.drop_last());
        lemma_hits_leave_marks(m, coords.drop_last(), d);
        lemma_marks_are_kept(m.record_hits(coords.drop_last()), coords.last(), d);
    }
}

/// Any number of hits keep the beliefs well formed.
pub proof fn lemma_record_hits_keeps_wf(m: EngineModel, coords: Seq<Coord>)
    requires
        m.wf(),
    ensures
        m.record_hits(coords).wf(),
    decreases coords.len(),
{
    if coords.len() > 0 {
        lemma_record_hits_keeps_wf(m, coords.drop_last());
        lemma_record_hit_keeps_wf(m.record_hits(coords.drop_last()), coords.last());
    }
}

/// What `first_open` finds is one of the probes and can be proposed; where
/// it finds nothing, none of the probes from `from` on can be proposed.
pub proof fn lemma_first_open(m: EngineModel, excluded: Seq<Coord>, probes: Seq<Coord>, from: int)
    requires
        0 <= from,
    ensures
        match m.first_open(excluded, probes, from) {
            Some(c) => m.open_to(excluded, c) && probes.contains(c),
            None => forall|k: int| from <= k < probes.len() ==> !m.open_to(excluded, probes[k]),
        },
    decreases probes.len() - from,
{
    if from < probes.len() && !m.open_to(excluded, probes[from]) {
        lemma_first_open(m, excluded, probes, from + 1);
    }
}

/// What target mode picks can be proposed and is a probe of an active
/// cluster; where it picks nothing, no probe of a cluster from `from` on
/// can be proposed.
pub proof fn lemma_target_pick(m: EngineModel, excluded: Seq<Coord>, from: int)
    requires
        0 <= from,
    ensures
        match m.target_pick(excluded, from) {
            Some(c) => m.open_to(excluded, c) && exists|i: int|
                from <= i < m.clusters.len() && (#[trigger] m.clusters[i]).has_probe(c),
            None => forall|i: int, c: Coord|
                from <= i < m.clusters.len() && #[trigger] m.clusters[i].has_probe(c)
                    ==> !m.open_to(excluded, c),
        },
    decreases m.clusters.len() - from,
{
    if from < m.clusters.len() {
        let probes = m.clusters[from].probes();
        lemma_first_open(m, excluded, probes, 0);
        match m.first_open(excluded, probes, 0) {
            Some(c) => {
                lemma_probes_are_named(m.clusters[from], c);
            },
            None => {
                lemma_target_pick(m, excluded, from + 1);
                match m.target_pick(excluded, from + 1) {
                    Some(c) => {},
                    None => {
                        assert forall|i: int, c: Coord|
                            from <= i < m.clusters.len() && #[trigger] m.clusters[i].has_probe(
                                c,
                            ) implies !m.open_to(excluded, c) by {
                            if i == from {
                                lemma_probes_are_named(m.clusters[from], c);
                                let k = choose|k: int| 0 <= k < probes.len() && probes[k] == c;
                                assert(!m.open_to(excluded, probes[k]));
                            }
                        }
                    },
                }
            },
        }
    }
}

/// Whether `c` lies at or after column `x` of row `y` in the reading order.
pub open spec fn at_or_after(c: Coord, y: int, x: int) -> bool {
    c.y > y || (c.y == y && c.x >= x)
}

/// What a scan finds is eligible and the first such cell in the reading
/// order from where the scan starts; where it finds nothing, no cell from
/// there on is eligible.
pub proof fn lemma_scan_from(m: EngineModel, excluded: Seq<Coord>, class_only: bool, y: int, x: int)
    requires
        m.wf(),
        0 <= y,
        0 <= x,
    ensures
        match m.scan_from(excluded, class_only, y, x) {
            Some(c) => {
                &&& m.eligible(excluded, class_only, c)
                &&& at_or_after(c, y, x)
                &&& forall|d: Coord| #[trigger]
                    m.eligible(excluded, class_only, d) && at_or_after(d, y, x) ==> !before(
                        d,
                        c,
                    )
            },
            None => forall|d: Coord| #[trigger]
                m.eligible(excluded, class_only, d) ==> !at_or_after(d, y, x),
        },
    decreases m.height - y, m.width - x,
{
    if y >= m.height {
        assert forall|d: Coord| #[trigger]
            m.eligible(excluded, class_only, d) implies !at_or_after(d, y, x) by {
            assert(d.in_grid(m.height, m.width));
        }
    } else if x >= m.width {
        lemma_scan_from(m, excluded, class_only, y + 1, 0);
        match m.scan_from(excluded, class_only, y + 1, 0) {
            Some(f) => {
                assert forall|d: Coord| #[trigger]
                    m.eligible(excluded, class_only, d) && at_or_after(d, y, x) implies !before(
                    d,
                    f,
                ) by {
                    assert(d.in_grid(m.height, m.width));
                    assert(at_or_after(d, y + 1, 0));
                }
            },
            None => {
                assert forall|d: Coord| #[trigger]
                    m.eligible(excluded, class_only, d) implies !at_or_after(d, y, x) by {
                    assert(d.in_grid(m.height, m.width));
                    assert(!at_or_after(d, y + 1, 0));
                }
            },
        }
    } else {
        let c = Coord { x: x as i32, y: y as i32 };
        if m.eligible(excluded, class_only, c) {
            assert forall|d: Coord| #[trigger]
                m.eligible(excluded, class_only, d) && at_or_after(d, y, x) implies !before(
                d,
                c,
            ) by {}
        } else {
            lemma_scan_from(m, excluded, class_only, y, x + 1);
            match m.scan_from(excluded, class_only, y, x + 1) {
                Some(f) => {
                    assert forall|d: Coord| #[trigger]
                        m.eligible(excluded, class_only, d) && at_or_after(d, y, x) implies !before(
                        d,
                        f,
                    ) by {
                        if d.y == y && d.x == x {
                            assert(d == c);
                        } else {
                            assert(at_or_after(d, y, x + 1));
                        }
                    }
                },
                None => {
                    assert forall|d: Coord| #[trigger]
                        m.eligible(excluded, class_only, d) implies !at_or_after(d, y, x) by {
                        if d.y == y && d.x == x {
                            assert(d == c);
                        } else {
                            assert(!at_or_after(d, y, x + 1));
                        }
                    }
                },
            }
        }
    }
}

/// The next shot is a cell that can be proposed, and there is one as long as
/// any cell can be proposed. In hunt mode it is the first cell of the hunt
/// pattern in the reading order as long as the pattern has a cell left, and
/// after that the first cell left at all.
pub proof fn lemma_next_shot(m: EngineModel, excluded: Seq<Coord>)
    requires
        m.wf(),
    ensures
        match m.next_shot(excluded) {
            Some(c) => m.open_to(excluded, c),
            None => forall|d: Coord| !#[trigger] m.open_to(excluded, d),
        },
        m.target_pick(excluded, 0) is None ==> match m.hunt_pick(excluded) {
            Some(c) => {
                &&& m.next_shot(excluded) == Some(c)
                &&& m.in_class(c) <==> exists|d: Coord| #[trigger] m.eligible(excluded, true, d)
                &&& forall|d: Coord| #[trigger]
                    m.eligible(excluded, m.in_class(c), d) ==> !before(d, c)
            },
            None => true,
        },
{
    lemma_target_pick(m, excluded, 0);
    lemma_scan_from(m, excluded, true, 0, 0);
    lemma_scan_from(m, excluded, false, 0, 0);
    if m.next_shot(excluded) is None {
        assert forall|d: Coord| !#[trigger] m.open_to(excluded, d) by {
            if m.open_to(excluded, d) {
                assert(m.eligible(excluded, false, d));
                assert(at_or_after(d, 0, 0));
            }
        }
    }
    if m.target_pick(excluded, 0) is None {
        match m.scan_from(excluded, true, 0, 0) {
            Some(c) => {
                assert(m.eligible(excluded, true, c));
                assert forall|d: Coord| #[trigger]
                    m.eligible(excluded, true, d) implies !before(d, c) by {
                    assert(at_or_after(d, 0, 0));
                }
            },
            None => {
                assert forall|d: Coord| !#[trigger] m.eligible(excluded, true, d) by {
                    if m.eligible(excluded, true, d) {
                        assert(at_or_after(d, 0, 0));
                    }
                }
                match m.scan_from(excluded, false, 0, 0) {
                    Some(c) => {
                        assert(m.eligible(excluded, false, c));
                        assert(!m.in_class(c)) by {
                            if m.in_class(c) {
                                assert(m.eligible(excluded, true, c));
                            }
                        }
                        assert forall|d: Coord| #[trigger]
                            m.eligible(excluded, false, d) implies !before(d, c) by {
                            assert(at_or_after(d, 0, 0));
                        }
                    },
                    None => {},
                }
            },
        }
    }
}

/// The shots of a turn are sound: each is a cell that was never shot at and
/// is not excluded, none is proposed twice, there are no more than were
/// asked for, and there are fewer only when every cell that could be
/// proposed is among them.
pub proof fn lemma_selection_sound(m: EngineModel, excluded: Seq<Coord>, count: nat)
    requires
        m.wf(),
    ensures
        m.selection(excluded, count).len() <= count,
        forall|i: int|
            0 <= i < m.selection(excluded, count).len() ==> m.open_to(
                excluded,
                #[trigger] m.selection(excluded, count)[i],
            ),
        m.selection(excluded, count).no_duplicates(),
        m.selection(excluded, count).len() < count ==> forall|c: Coord| #[trigger]
            m.open_to(excluded, c) ==> m.selection(excluded, count).contains(c),
    decreases count,
{
    broadcast use vstd::seq_lib::group_seq_properties;

    let sel = m.selection(excluded, count);
    if count > 0 {
        lemma_next_shot(m, excluded);
        match m.next_shot(excluded) {
            None => {},
            Some(c) => {
                let more = excluded.push(c);
                let rest = m.selection(more, (count - 1) as nat);
                lemma_selection_sound(m, more, (count - 1) as nat);
                assert(sel == seq![c] + rest);
                assert(more[excluded.len() as int] == c);
                assert forall|i: int| 0 <= i < sel.len() implies m.open_to(
                    excluded,
                    #[trigger] sel[i],
                ) by {
                    if i > 0 {
                        assert(sel[i] == rest[i - 1]);
                        assert(m.open_to(more, rest[i - 1]));
                        if excluded.contains(sel[i]) {
                            let k = choose|k: int| 0 <= k < excluded.len() && excluded[k] == sel[i];
                            assert(more[k] == sel[i]);
                        }
                    }
                }
                assert forall|i: int, j: int|
                    0 <= i < sel.len() && 0 <= j < sel.len() && i != j implies sel[i]
                    != sel[j] by {
                    if i > 0 {
                        assert(m.open_to(more, rest[i - 1]));
                    }
                    if j > 0 {
                        assert(m.open_to(more, rest[j - 1]));
                    }
                    if i > 0 && j > 0 {
                        assert(rest[i - 1] != rest[j - 1]);
                    }
                }
                if sel.len() < count {
                    assert forall|d: Coord| m.open_to(excluded, d) implies sel.contains(d) by {
                        if d == c {
                            assert(sel[0] == d);
                        } else {
                            assert(!more.contains(d)) by {
                                if more.contains(d) {
                                    let k = choose|k: int| 0 <= k < more.len() && more[k] == d;
                                    if k < excluded.len() {
                                        assert(excluded[k] == d);
                                    }
                                }
                            }
                            assert(m.open_to(more, d));
                            let k = choose|k: int| 0 <= k < rest.len() && rest[k] == d;
                            assert(sel[k + 1] == d);
                        }
                    }
                }
            },
        }
    }
}

/// Every straight run of `modulus` cells on the grid has a cell in the hunt
/// pattern: whichever way a ship of the shortest length lies, the pattern
/// meets it.
pub proof fn lemma_hunt_meets_every_run(height: int, width: int, modulus: int, run: Run) -> (k: int)
    requires
        0 <= height <= i32::MAX,
        0 <= width <= i32::MAX,
        1 <= modulus,
        run_fits(height, width, run, modulus),
    ensures
        0 <= k < modulus,
        run_cell(run, k).in_grid(height, width),
        in_hunt_class(run_cell(run, k), modulus),
{
    let s = run.origin.x + run.origin.y;
    let r = s % modulus;
    let q = s / modulus;
    vstd::arithmetic::div_mod::lemma_fundamental_div_mod(s, modulus);
    vstd::arithmetic::div_mod::lemma_mod_bound(s, modulus);
    let k = if r == 0 {
        0
    } else {
        modulus - r
    };
    assert((s + k) % modulus == 0) by {
        if r == 0 {
        } else {
            assert(s + k == modulus * (q + 1)) by (nonlinear_arith)
                requires
                    s == modulus * q + r,
                    k == modulus - r,
            ;
            vstd::arithmetic::div_mod::lemma_mod_multiples_basic(q + 1, modulus);
            assert(modulus * (q + 1) == (q + 1) * modulus) by (nonlinear_arith);
        }
    }
    let c = run_cell(run, k);
    assert(c.x + c.y == s + k);
    k
}

/// Once the hunt pattern is used up, every straight run of `modulus` cells
/// on the grid holds a cell that was shot at: no ship of the shortest length
/// can have escaped the hunt.
pub proof fn lemma_used_up_pattern_met_every_run(m: EngineModel, run: Run) -> (k: int)
    requires
        m.wf(),
        run_fits(m.height, m.width, run, m.modulus),
        forall|c: Coord| #[trigger] m.unknown(c) ==> !m.in_class(c),
    ensures
        0 <= k < m.modulus,
        run_cell(run, k).in_grid(m.height, m.width),
        m.beliefs[run_cell(run, k)] != BeliefCell::Unknown,
{
    let k = lemma_hunt_meets_every_run(m.height, m.width, m.modulus, run);
    assert(m.in_class(run_cell(run, k)));
    assert(!m.unknown(run_cell(run, k)));
    k
}

} // verus!
