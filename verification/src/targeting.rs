//! The targeting engine: it keeps the beliefs about the opponent's board,
//! proposes the shots of each turn and takes in what came of them.
//!
//! With no cluster of hits to follow up, the engine hunts: it shoots at the
//! cells of a pattern that no ship of the shortest length can avoid. A hit
//! starts a cluster, and the engine then probes around it, and along its
//! line once a second hit has shown the axis, until the ship is reported
//! sunk.

use crate::belief::{
    attach_index, cover_index, lemma_attach_index, lemma_cover_index, lemma_record_hit_keeps_wf,
    lemma_record_miss_keeps_wf, lemma_record_sunk_keeps_wf, lemma_selection_sound, BeliefCell,
    Cluster, EngineModel,
};
use crate::coord::{contains_coord, Coord};
use vstd::prelude::*;

verus! {

/// What the engine is doing.
#[derive(Clone, Copy, Debug, PartialEq, Eq, Structural)]
pub enum Mode {
    /// No cluster is active: the engine scans the hunt pattern.
    Hunt,
    /// At least one cluster is active: the engine follows it up.
    Target,
}

spec fn rows_ok(rows: Seq<Vec<BeliefCell>>, height: int, width: int) -> bool {
    &&& rows.len() == height
    &&& forall|y: int| 0 <= y < height ==> (#[trigger] rows[y])@.len() == width
}

spec fn rows_map(rows: Seq<Vec<BeliefCell>>, height: int, width: int) -> Map<Coord, BeliefCell> {
    Map::new(|c: Coord| c.in_grid(height, width), |c: Coord| rows[c.y as int]@[c.x as int])
}

/// Marks every cell of `cl` as part of the sunk ship `id`.
fn mark_sunk(rows: &mut Vec<Vec<BeliefCell>>, height: usize, width: usize, cl: Cluster, id: u64)
    requires
        height <= i32::MAX,
        width <= i32::MAX,
        rows_ok(old(rows)@, height as int, width as int),
        cl.ordered(),
        cl.lo.in_grid(height as int, width as int),
        cl.hi.in_grid(height as int, width as int),
    ensures
        rows_ok(final(rows)@, height as int, width as int),
        rows_map(final(rows)@, height as int, width as int) == Map::new(
            |p: Coord| p.in_grid(height as int, width as int),
            |p: Coord|
                if cl.covers(p) {
                    BeliefCell::SunkPartOf(id)
                } else {
                    rows_map(old(rows)@, height as int, width as int)[p]
                },
        ),
{
    let ghost start = rows_map(rows@, height as int, width as int);
    let mut y: i32 = cl.lo.y;
    proof {
        assert(start =~= Map::new(
            |p: Coord| p.in_grid(height as int, width as int),
            |p: Coord|
                if cl.covers(p) && p.y < y {
                    BeliefCell::SunkPartOf(id)
                } else {
                    start[p]
                },
        ));
    }
    while y <= cl.hi.y
        invariant
            height <= i32::MAX,
            width <= i32::MAX,
            cl.ordered(),
            cl.lo.in_grid(height as int, width as int),
            cl.hi.in_grid(height as int, width as int),
            cl.lo.y <= y <= cl.hi.y + 1,
            rows_ok(rows@, height as int, width as int),
            rows_map(rows@, height as int, width as int) == Map::new(
                |p: Coord| p.in_grid(height as int, width as int),
                |p: Coord|
                    if cl.covers(p) && p.y < y {
                        BeliefCell::SunkPartOf(id)
                    } else {
                        start[p]
                    },
            ),
        decreases cl.hi.y + 1 - y,
    {
        let mut x: i32 = cl.lo.x;
        proof {
            assert(rows_map(rows@, height as int, width as int) =~= Map::new(
                |p: Coord| p.in_grid(height as int, width as int),
                |p: Coord|
                    if cl.covers(p) && (p.y < y || (p.y == y && p.x < x)) {
                        BeliefCell::SunkPartOf(id)
                    } else {
                        start[p]
                    },
            ));
        }
        while x <= cl.hi.x
            invariant
                height <= i32::MAX,
                width <= i32::MAX,
                cl.ordered(),
                cl.lo.in_grid(height as int, width as int),
                cl.hi.in_grid(height as int, width as int),
                cl.lo.y <= y <= cl.hi.y,
                cl.lo.x <= x <= cl.hi.x + 1,
                rows_ok(rows@, height as int, width as int),
                rows_map(rows@, height as int, width as int) == Map::new(
                    |p: Coord| p.in_grid(height as int, width as int),
                    |p: Coord|
                        if cl.covers(p) && (p.y < y || (p.y == y && p.x < x)) {
                            BeliefCell::SunkPartOf(id)
                        } else {
                            start[p]
                        },
                ),
            decreases cl.hi.x + 1 - x,
        {
            let ghost before = rows_map(rows@, height as int, width as int);
            rows[y as usize][x as usize] = BeliefCell::SunkPartOf(id);
            proof {
                let here = Coord { x, y };
                let after = rows_map(rows@, height as int, width as int);
                let goal = Map::new(
                    |p: Coord| p.in_grid(height as int, width as int),
                    |p: Coord|
                        if cl.covers(p) && (p.y < y || (p.y == y && p.x < x + 1)) {
                            BeliefCell::SunkPartOf(id)
                        } else {
                            start[p]
                        },
                );
                assert forall|p: Coord| after.dom().contains(p) implies after[p] == goal[p] by {
                    if p == here {
                        assert(cl.covers(p));
                    } else {
                        assert(after[p] == before[p]);
                    }
                }
                assert(after =~= goal);
            }
            x += 1;
        }
        proof {
            assert(rows_map(rows@, height as int, width as int) =~= Map::new(
                |p: Coord| p.in_grid(height as int, width as int),
                |p: Coord|
                    if cl.covers(p) && p.y < y + 1 {
                        BeliefCell::SunkPartOf(id)
                    } else {
                        start[p]
                    },
            ));
        }
        y += 1;
    }
    proof {
        assert(rows_map(rows@, height as int, width as int) =~= Map::new(
            |p: Coord| p.in_grid(height as int, width as int),
            |p: Coord|
                if cl.covers(p) {
                    BeliefCell::SunkPartOf(id)
                } else {
                    start[p]
                },
        ));
    }
}

/// The targeting engine of one game.
#[derive(Clone, Debug)]
pub struct TargetingEngine {
    height: usize,
    width: usize,
    modulus: i32,
    beliefs: Vec<Vec<BeliefCell>>,
    clusters: Vec<Cluster>,
    sunk: u64,
}

impl View for TargetingEngine {
    type V = EngineModel;

    closed spec fn view(&self) -> EngineModel {
        EngineModel {
            height: self.height as int,
            width: self.width as int,
            modulus: self.modulus as int,
            beliefs: rows_map(self.beliefs@, self.height as int, self.width as int),
            clusters: self.clusters@,
            sunk: self.sunk,
        }
    }
}

impl TargetingEngine {
    /// The grid of beliefs has the stated size, and the beliefs are well
    /// formed.
    pub closed spec fn wf(&self) -> bool {
        &&& self.height <= i32::MAX
        &&& self.width <= i32::MAX
        &&& rows_ok(self.beliefs@, self.height as int, self.width as int)
        &&& self@.wf()
    }

    /// What well-formedness says of the beliefs.
    pub proof fn lemma_wf_content(&self)
        requires
            self.wf(),
        ensures
            self@.wf(),
    {
    }

    /// An engine for a grid of `height` rows and `width` columns that knows
    /// nothing yet. `min_len` is the length of the shortest ship, which
    /// sets the hunt pattern.
    pub fn new(height: i32, width: i32, min_len: i32) -> (engine: TargetingEngine)
        requires
            height >= 0,
            width >= 0,
            min_len >= 1,
        ensures
            engine@ == EngineModel::fresh(height as int, width as int, min_len as int),
            engine.wf(),
    {
        let h = height as usize;
        let w = width as usize;
        let mut beliefs: Vec<Vec<BeliefCell>> = Vec::new();
        let mut y: usize = 0;
        while y < h
            invariant
                y <= h,
                beliefs@.len() == y,
                forall|r: int| 0 <= r < y ==> (#[trigger] beliefs@[r])@.len() == w,
                forall|r: int, k: int|
                    0 <= r < y && 0 <= k < w ==> (#[trigger] beliefs@[r]@[k])
                        == BeliefCell::Unknown,
            decreases h - y,
        {
            let mut row: Vec<BeliefCell> = Vec::new();
            let mut x: usize = 0;
            while x < w
                invariant
                    x <= w,
                    row@.len() == x,
                    forall|k: int| 0 <= k < x ==> (#[trigger] row@[k]) == BeliefCell::Unknown,
                decreases w - x,
            {
                row.push(BeliefCell::Unknown);
                x += 1;
            }
            beliefs.push(row);
            y += 1;
        }
        let engine = TargetingEngine {
            height: h,
            width: w,
            modulus: min_len,
            beliefs,
            clusters: Vec::new(),
            sunk: 0,
        };
        proof {
            let fresh = EngineModel::fresh(height as int, width as int, min_len as int);
            assert(engine@.beliefs =~= fresh.beliefs);
            assert(engine@.clusters =~= fresh.clusters);
        }
        engine
    }

    fn on_grid(&self, c: Coord) -> (b: bool)
        requires
            self.wf(),
        ensures
            b == c.in_grid(self@.height, self@.width),
    {
        0 <= c.x && (c.x as usize) < self.width && 0 <= c.y && (c.y as usize) < self.height
    }

    /// What is believed of the cell at `c`; `None` off the grid.
    pub fn belief_at(&self, c: Coord) -> (r: Option<BeliefCell>)
        requires
            self.wf(),
        ensures
            r == if c.in_grid(self@.height, self@.width) {
                Some(self@.beliefs[c])
            } else {
                None
            },
    {
        if self.on_grid(c) {
            Some(self.beliefs[c.y as usize][c.x as usize])
        } else {
            None
        }
    }

    pub fn height(&self) -> (h: i32)
        requires
            self.wf(),
        ensures
            h == self@.height,
    {
        self.height as i32
    }

    pub fn width(&self) -> (w: i32)
        requires
            self.wf(),
        ensures
            w == self@.width,
    {
        self.width as i32
    }

    /// The active clusters, the oldest first.
    pub fn clusters(&self) -> (list: &Vec<Cluster>)
        ensures
            list@ == self@.clusters,
    {
        &self.clusters
    }

    /// How many ships were reported sunk.
    pub fn sunk_count(&self) -> (n: u64)
        ensures
            n == self@.sunk,
    {
        self.sunk
    }

    /// Hunt mode while no cluster is active, target mode otherwise.
    pub fn mode(&self) -> (m: Mode)
        ensures
            m == if self@.clusters.len() == 0 {
                Mode::Hunt
            } else {
                Mode::Target
            },
    {
        if self.clusters.len() == 0 {
            Mode::Hunt
        } else {
            Mode::Target
        }
    }

    fn open_to(&self, excluded: &Vec<Coord>, c: Coord) -> (b: bool)
        requires
            self.wf(),
        ensures
            b == self@.open_to(excluded@, c),
    {
        if !self.on_grid(c) {
            return false;
        }
        match self.beliefs[c.y as usize][c.x as usize] {
            BeliefCell::Unknown => !contains_coord(excluded, c),
            _ => false,
        }
    }

    fn eligible(&self, excluded: &Vec<Coord>, class_only: bool, c: Coord) -> (b: bool)
        requires
            self.wf(),
        ensures
            b == self@.eligible(excluded@, class_only, c),
    {
        if !self.open_to(excluded, c) {
            return false;
        }
        if !class_only {
            return true;
        }
        let sum: i64 = c.x as i64 + c.y as i64;
        sum % (self.modulus as i64) == 0
    }

    fn first_open(&self, excluded: &Vec<Coord>, probes: &Vec<Coord>) -> (r: Option<Coord>)
        requires
            self.wf(),
        ensures
            r == self@.first_open(excluded@, probes@, 0),
    {
        let mut k: usize = 0;
        while k < probes.len()
            invariant
                self.wf(),
                k <= probes.len(),
                self@.first_open(excluded@, probes@, 0) == self@.first_open(
                    excluded@,
                    probes@,
                    k as int,
                ),
            decreases probes.len() - k,
        {
            if self.open_to(excluded, probes[k]) {
                return Some(probes[k]);
            }
            k += 1;
        }
        None
    }

    fn target_pick(&self, excluded: &Vec<Coord>) -> (r: Option<Coord>)
        requires
            self.wf(),
        ensures
            r == self@.target_pick(excluded@, 0),
    {
        let mut i: usize = 0;
        while i < self.clusters.len()
            invariant
                self.wf(),
                i <= self.clusters.len(),
                self@.target_pick(excluded@, 0) == self@.target_pick(excluded@, i as int),
            decreases self.clusters.len() - i,
        {
            assert(self@.cluster_ok(i as int));
            let probes = self.clusters[i].probe_list();
            match self.first_open(excluded, &probes) {
                Some(c) => {
                    return Some(c);
                },
                None => {},
            }
            i += 1;
        }
        None
    }

    fn scan(&self, excluded: &Vec<Coord>, class_only: bool) -> (r: Option<Coord>)
        requires
            self.wf(),
        ensures
            r == self@.scan_from(excluded@, class_only, 0, 0),
    {
        let mut y: usize = 0;
        while y < self.height
            invariant
                self.wf(),
                y <= self.height,
                self@.scan_from(excluded@, class_only, 0, 0) == self@.scan_from(
                    excluded@,
                    class_only,
                    y as int,
                    0,
                ),
            decreases self.height - y,
        {
            let mut x: usize = 0;
            while x < self.width
                invariant
                    self.wf(),
                    y < self.height,
                    x <= self.width,
                    self@.scan_from(excluded@, class_only, 0, 0) == self@.scan_from(
                        excluded@,
                        class_only,
                        y as int,
                        x as int,
                    ),
                decreases self.width - x,
            {
                let c = Coord { x: x as i32, y: y as i32 };
                if self.eligible(excluded, class_only, c) {
                    return Some(c);
                }
                x += 1;
            }
            y += 1;
        }
        None
    }

    fn next_shot(&self, excluded: &Vec<Coord>) -> (r: Option<Coord>)
        requires
            self.wf(),
        ensures
            r == self@.next_shot(excluded@),
    {
        match self.target_pick(excluded) {
            Some(c) => Some(c),
            None => match self.scan(excluded, true) {
                Some(c) => Some(c),
                None => self.scan(excluded, false),
            },
        }
    }

    /// Proposes the shots of a turn: `count` cells, or all that are left
    /// where fewer are left. The engine follows up its clusters first and
    /// hunts for the rest. No cell is proposed that was shot at before, and
    /// none twice.
    pub fn select_shots(&self, count: usize) -> (shots: Vec<Coord>)
        requires
            self.wf(),
        ensures
            shots@ == self@.selection(Seq::empty(), count as nat),
            shots@.len() <= count,
            forall|i: int| 0 <= i < shots@.len() ==> self@.unknown(#[trigger] shots@[i]),
            shots@.no_duplicates(),
            shots@.len() < count ==> forall|c: Coord| #[trigger]
                self@.unknown(c) ==> shots@.contains(c),
    {
        let mut shots: Vec<Coord> = Vec::new();
        let ghost all = self@.selection(Seq::empty(), count as nat);
        proof {
            lemma_selection_sound(self@, Seq::empty(), count as nat);
            assert(Seq::<Coord>::empty() + all =~= all);
            assert forall|c: Coord| #[trigger] self@.unknown(c) implies self@.open_to(
                Seq::empty(),
                c,
            ) by {}
        }
        while shots.len() < count
            invariant
                self.wf(),
                shots@.len() <= count,
                all == self@.selection(Seq::empty(), count as nat),
                all == shots@ + self@.selection(shots@, (count - shots@.len()) as nat),
            decreases count - shots.len(),
        {
            match self.next_shot(&shots) {
                None => {
                    proof {
                        assert(shots@ + Seq::<Coord>::empty() =~= shots@);
                        lemma_selection_sound(self@, Seq::empty(), count as nat);
                        assert forall|c: Coord| #[trigger] self@.unknown(c) implies self@.open_to(
                            Seq::empty(),
                            c,
                        ) by {}
                    }
                    return shots;
                },
                Some(c) => {
                    let ghost before = shots@;
                    shots.push(c);
                    proof {
                        let rest = self@.selection(
                            before.push(c),
                            (count - before.len() - 1) as nat,
                        );
                        assert(before + (seq![c] + rest) =~= before.push(c) + rest);
                    }
                },
            }
        }
        proof {
            assert(shots@ + Seq::<Coord>::empty() =~= shots@);
        }
        shots
    }

    /// Records a miss at `c`. Only a cell that was never shot at changes.
    pub fn record_miss(&mut self, c: Coord)
        requires
            old(self).wf(),
        ensures
            final(self).wf(),
            final(self)@ == old(self)@.record_miss(c),
    {
        proof {
            lemma_record_miss_keeps_wf(self@, c);
        }
        if !self.on_grid(c) {
            return ;
        }
        let y = c.y as usize;
        let x = c.x as usize;
        match self.beliefs[y][x] {
            BeliefCell::Unknown => {
                let ghost start = self@;
                self.beliefs[y][x] = BeliefCell::Miss;
                proof {
                    assert(self@.beliefs =~= start.beliefs.insert(c, BeliefCell::Miss));
                }
            },
            _ => {},
        }
    }

    /// Records a miss at each of `coords`.
    pub fn record_misses(&mut self, coords: &Vec<Coord>)
        requires
            old(self).wf(),
        ensures
            final(self).wf(),
            final(self)@ == old(self)@.record_misses(coords@),
    {
        let mut j: usize = 0;
        while j < coords.len()
            invariant
                j <= coords.len(),
                self.wf(),
                self@ == old(self)@.record_misses(coords@.take(j as int)),
            decreases coords.len() - j,
        {
            self.record_miss(coords[j]);
            proof {
                assert(coords@.take(j as int + 1).drop_last() =~= coords@.take(j as int));
            }
            j += 1;
        }
        proof {
            assert(coords@.take(coords@.len() as int) =~= coords@);
        }
    }

    /// The first cluster that `c` prolongs.
    fn find_attach(&self, c: Coord) -> (r: Option<usize>)
        requires
            self.wf(),
        ensures
            match r {
                Some(i) => attach_index(self@.clusters, c, 0) == Some(i as int),
                None => attach_index(self@.clusters, c, 0) is None,
            },
    {
        let mut i: usize = 0;
        while i < self.clusters.len()
            invariant
                self.wf(),
                i <= self.clusters.len(),
                attach_index(self@.clusters, c, 0) == attach_index(self@.clusters, c, i as int),
            decreases self.clusters.len() - i,
        {
            assert(self@.cluster_ok(i as int));
            if self.clusters[i].is_probe(c) {
                return Some(i);
            }
            i += 1;
        }
        None
    }

    /// The first cluster that covers `c`.
    fn find_cover(&self, c: Coord) -> (r: Option<usize>)
        requires
            self.wf(),
        ensures
            match r {
                Some(i) => cover_index(self@.clusters, c, 0) == Some(i as int),
                None => cover_index(self@.clusters, c, 0) is None,
            },
    {
        let mut i: usize = 0;
        while i < self.clusters.len()
            invariant
                self.wf(),
                i <= self.clusters.len(),
                cover_index(self@.clusters, c, 0) == cover_index(self@.clusters, c, i as int),
            decreases self.clusters.len() - i,
        {
            if self.clusters[i].includes(c) {
                return Some(i);
            }
            i += 1;
        }
        None
    }

    /// Records a hit at `c`. A hit on a cell that is already known as a hit
    /// or as part of a sunk ship changes nothing; any other cell of the grid
    /// becomes a hit and joins the first cluster that it prolongs, or starts
    /// one.
    pub fn record_hit(&mut self, c: Coord)
        requires
            old(self).wf(),
        ensures
            final(self).wf(),
            final(self)@ == old(self)@.record_hit(c),
    {
        proof {
            lemma_record_hit_keeps_wf(self@, c);
            lemma_attach_index(self@.clusters, c, 0);
        }
        if !self.on_grid(c) {
            return ;
        }
        let y = c.y as usize;
        let x = c.x as usize;
        match self.beliefs[y][x] {
            BeliefCell::Hit => {
                return ;
            },
            BeliefCell::SunkPartOf(_) => {
                return ;
            },
            _ => {},
        }
        let ghost start = self@;
        let found = self.find_attach(c);
        self.beliefs[y][x] = BeliefCell::Hit;
        match found {
            Some(i) => {
                let grown = self.clusters[i].extend(c);
                self.clusters[i] = grown;
            },
            None => {
                self.clusters.push(Cluster { lo: c, hi: c });
            },
        }
        proof {
            assert(self@.beliefs =~= start.record_hit(c).beliefs);
            assert(self@.clusters =~= start.record_hit(c).clusters);
        }
    }

    /// Records a hit at each of `coords`, in order.
    pub fn record_hits(&mut self, coords: &Vec<Coord>)
        requires
            old(self).wf(),
        ensures
            final(self).wf(),
            final(self)@ == old(self)@.record_hits(coords@),
    {
        let mut j: usize = 0;
        while j < coords.len()
            invariant
                j <= coords.len(),
                self.wf(),
                self@ == old(self)@.record_hits(coords@.take(j as int)),
            decreases coords.len() - j,
        {
            self.record_hit(coords[j]);
            proof {
                assert(coords@.take(j as int + 1).drop_last() =~= coords@.take(j as int));
            }
            j += 1;
        }
        proof {
            assert(coords@.take(coords@.len() as int) =~= coords@);
        }
    }

    /// Records that the ship at `c` was sunk: the cells of the cluster that
    /// covers `c` become part of a sunk ship, and the cluster is dropped. A
    /// report for a cell that no cluster covers changes nothing.
    pub fn record_sunk(&mut self, c: Coord)
        requires
            old(self).wf(),
        ensures
            final(self).wf(),
            final(self)@ == old(self)@.record_sunk(c),
    {
        proof {
            lemma_record_sunk_keeps_wf(self@, c);
            lemma_cover_index(self@.clusters, c, 0);
        }
        let ghost start = self@;
        match self.find_cover(c) {
            None => {},
            Some(i) => {
                assert(start.cluster_ok(i as int));
                let cl = self.clusters[i];
                mark_sunk(&mut self.beliefs, self.height, self.width, cl, self.sunk);
                self.clusters.remove(i);
                if self.sunk < u64::MAX {
                    self.sunk = self.sunk + 1;
                }
                proof {
                    assert(self@.beliefs =~= start.record_sunk(c).beliefs);
                    assert(self@.clusters =~= start.record_sunk(c).clusters);
                }
            },
        }
    }
}

} // verus!
