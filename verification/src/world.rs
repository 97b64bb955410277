use crate::geom::{
    attract_velocity, attract_vx, attract_vy, lemma_attraction_points_toward_player,
    sensors_overlap, OBJECT_RADIUS, PLAYER_RADIUS,
};
use crate::motion::{axis_velocity, player_velocity, KeyState, MOVE_SPEED};
use crate::rng::random_i64_between;
use crate::timer::{RepeatTimer, MAX_DELTA, MAX_INTERVAL};
use vstd::arithmetic::div_mod::{lemma_div_basics_4, lemma_div_basics_5};
use vstd::prelude::*;

verus! {

/// Half-width of the square region in which new objects appear.
pub const SPAWN_HALF_EXTENT: i64 = 600;

/// Number of visual variants in the palette a new object draws from.
pub const VARIANT_COUNT: u8 = 10;

/// Square proximity threshold: an object within this distance of the player
/// on both axes is consumed. The test is per-axis, not radial.
pub const CONSUME_THRESHOLD: i64 = 25;

/// Largest coordinate magnitude a world may hold at the start of a frame.
pub const POS_LIMIT: i64 = 1_000_000_000_000;

/// Largest coordinate magnitude right after one frame's integration:
/// `POS_LIMIT` plus the farthest one frame can carry anything
/// (`MOVE_SPEED * MAX_DELTA` over at least one time unit per second).
pub const POS_STEP_LIMIT: i64 = 1_100_000_000_000;

/// A consumable object: a planet with a circular sensor, pulled toward the
/// player while their sensors overlap.
#[derive(Clone, Copy, PartialEq, Eq, Structural, Debug)]
pub struct ObjectEntity {
    pub id: u64,
    pub x: i64,
    pub y: i64,
    pub vx: i64,
    pub vy: i64,
    /// Which sprite of the fixed palette this object shows; immutable after
    /// creation and irrelevant to the simulation rules.
    pub variant: u8,
}

/// The whole simulation state: the single player (structurally exactly one),
/// the arena of live objects, and the spawn timer. Positions are integer
/// units; velocities are units per second; a frame's delta is counted in
/// `1 / units_per_second` seconds.
pub struct World {
    pub player_x: i64,
    pub player_y: i64,
    pub player_vx: i64,
    pub player_vy: i64,
    pub objects: Vec<ObjectEntity>,
    pub spawn_timer: RepeatTimer,
    /// Identifier the next spawned object will get; never reused.
    pub next_id: u64,
    /// How many time units make one second.
    pub units_per_second: u64,
}

/// A live object is well formed when its identifier is below the world's
/// watermark, its speed is bounded per axis, and its variant is in the
/// palette.
pub open spec fn obj_wf(o: ObjectEntity, next_id: u64) -> bool {
    &&& o.id < next_id
    &&& -(MOVE_SPEED as int) <= o.vx as int <= MOVE_SPEED as int
    &&& -(MOVE_SPEED as int) <= o.vy as int <= MOVE_SPEED as int
    &&& o.variant < VARIANT_COUNT
}

/// Displacement of one coordinate over one frame: velocity times delta,
/// divided by the units per second, rounded toward zero.
pub open spec fn displacement(v: int, delta: int, ups: int) -> int
    recommends
        ups >= 1,
        delta >= 0,
{
    if v >= 0 {
        (v * delta) / ups
    } else {
        -(((-v) * delta) / ups)
    }
}

/// An object after one frame of kinematic integration.
pub open spec fn integrated_obj(o: ObjectEntity, delta: int, ups: int) -> ObjectEntity {
    ObjectEntity {
        id: o.id,
        x: (o.x + displacement(o.vx as int, delta, ups)) as i64,
        y: (o.y + displacement(o.vy as int, delta, ups)) as i64,
        vx: o.vx,
        vy: o.vy,
        variant: o.variant,
    }
}

/// All objects after one frame of kinematic integration.
pub open spec fn integrated_seq(objs: Seq<ObjectEntity>, delta: int, ups: int) -> Seq<
    ObjectEntity,
> {
    objs.map_values(|o: ObjectEntity| integrated_obj(o, delta, ups))
}

/// An object after one collision-resolver pass: while its sensor overlaps
/// the player's and the two positions do not coincide, its velocity is
/// re-aimed at the player at `ATTRACT_SPEED`; otherwise it is untouched.
pub open spec fn resolved_obj(o: ObjectEntity, px: int, py: int) -> ObjectEntity {
    if sensors_overlap(px, py, o.x as int, o.y as int) && !(px == o.x as int && py
        == o.y as int) {
        ObjectEntity {
            id: o.id,
            x: o.x,
            y: o.y,
            vx: attract_vx(px, py, o.x as int, o.y as int) as i64,
            vy: attract_vy(px, py, o.x as int, o.y as int) as i64,
            variant: o.variant,
        }
    } else {
        o
    }
}

/// All objects after one collision-resolver pass.
pub open spec fn resolved_seq(objs: Seq<ObjectEntity>, px: int, py: int) -> Seq<ObjectEntity> {
    objs.map_values(|o: ObjectEntity| resolved_obj(o, px, py))
}

/// Whether an object at `(ox, oy)` is within the consumption threshold of
/// the player at `(px, py)` on both axes.
pub open spec fn within_threshold(px: int, py: int, ox: int, oy: int) -> bool {
    &&& -(CONSUME_THRESHOLD as int) <= px - ox <= CONSUME_THRESHOLD as int
    &&& -(CONSUME_THRESHOLD as int) <= py - oy <= CONSUME_THRESHOLD as int
}

/// The objects that survive one consumption pass, in their original order:
/// exactly those not within the threshold of the player.
pub open spec fn surviving(objs: Seq<ObjectEntity>, px: int, py: int) -> Seq<ObjectEntity>
    decreases objs.len(),
{
    if objs.len() == 0 {
        Seq::empty()
    } else {
        let rest = surviving(objs.drop_last(), px, py);
        if within_threshold(px, py, objs.last().x as int, objs.last().y as int) {
            rest
        } else {
            rest.push(objs.last())
        }
    }
}

/// Whether some live object carries the given identifier.
pub open spec fn contains_id(objs: Seq<ObjectEntity>, id: u64) -> bool {
    exists|i: int| 0 <= i < objs.len() && objs[i].id == id
}

/// Law: consumption is exact and irreversible within the pass — no surviving
/// object is within the threshold, every object not within the threshold
/// survives unchanged, and every survivor was already live.
pub proof fn lemma_consumption_exact(objs: Seq<ObjectEntity>, px: int, py: int)
    ensures
        forall|k: int|
            0 <= k < surviving(objs, px, py).len() ==> !within_threshold(
                px,
                py,
                #[trigger] surviving(objs, px, py)[k].x as int,
                surviving(objs, px, py)[k].y as int,
            ),
        forall|i: int|
            0 <= i < objs.len() && !within_threshold(
                px,
                py,
                #[trigger] objs[i].x as int,
                objs[i].y as int,
            ) ==> surviving(objs, px, py).contains(objs[i]),
        forall|k: int|
            0 <= k < surviving(objs, px, py).len() ==> objs.contains(
                #[trigger] surviving(objs, px, py)[k],
            ),
    decreases objs.len(),
{
    if objs.len() > 0 {
        let prefix = objs.drop_last();
        lemma_consumption_exact(prefix, px, py);
        let r = surviving(prefix, px, py);
        let s = surviving(objs, px, py);
        assert forall|k: int| 0 <= k < r.len() implies objs.contains(r[k]) by {
            assert(prefix.contains(r[k]));
            let i = choose|i: int| 0 <= i < prefix.len() && prefix[i] == r[k];
            assert(objs[i] == r[k]);
        }
        assert(objs.last() == objs[objs.len() - 1]);
        assert forall|i: int|
            0 <= i < objs.len() && !within_threshold(
                px,
                py,
                objs[i].x as int,
                objs[i].y as int,
            ) implies s.contains(objs[i]) by {
            if i < objs.len() - 1 {
                assert(prefix[i] == objs[i]);
                assert(r.contains(objs[i]));
                let k = choose|k: int| 0 <= k < r.len() && r[k] == objs[i];
                assert(s[k] == objs[i]);
            } else {
                assert(s == r.push(objs.last()));
                assert(s[s.len() - 1] == objs[i]);
            }
        }
    }
}

/// Law: the survivors keep their well-formedness and their strictly
/// increasing identifier order, and carry no identifier the input lacked.
pub proof fn lemma_surviving_wf(objs: Seq<ObjectEntity>, px: int, py: int, next_id: u64)
    requires
        forall|i: int| 0 <= i < objs.len() ==> obj_wf(#[trigger] objs[i], next_id),
        forall|i: int, j: int| 0 <= i < j < objs.len() ==> objs[i].id < objs[j].id,
    ensures
        forall|k: int|
            0 <= k < surviving(objs, px, py).len() ==> obj_wf(
                #[trigger] surviving(objs, px, py)[k],
                next_id,
            ),
        forall|k: int, l: int|
            0 <= k < l < surviving(objs, px, py).len() ==> surviving(objs, px, py)[k].id
                < surviving(objs, px, py)[l].id,
        forall|id: u64| contains_id(surviving(objs, px, py), id) ==> contains_id(objs, id),
    decreases objs.len(),
{
    lemma_consumption_exact(objs, px, py);
    let s = surviving(objs, px, py);
    assert forall|k: int| 0 <= k < s.len() implies obj_wf(s[k], next_id) by {
        assert(objs.contains(s[k]));
        let i = choose|i: int| 0 <= i < objs.len() && objs[i] == s[k];
        assert(obj_wf(objs[i], next_id));
    }
    assert forall|id: u64| contains_id(s, id) implies contains_id(objs, id) by {
        let k = choose|k: int| 0 <= k < s.len() && s[k].id == id;
        assert(objs.contains(s[k]));
        let i = choose|i: int| 0 <= i < objs.len() && objs[i] == s[k];
        assert(objs[i].id == id);
    }
    if objs.len() > 0 {
        let prefix = objs.drop_last();
        lemma_surviving_wf(prefix, px, py, next_id);
        lemma_consumption_exact(prefix, px, py);
        let r = surviving(prefix, px, py);
        if !within_threshold(px, py, objs.last().x as int, objs.last().y as int) {
            assert(s == r.push(objs.last()));
            assert forall|k: int, l: int| 0 <= k < l < s.len() implies s[k].id < s[l].id by {
                if l < s.len() - 1 {
                    assert(r[k] == s[k] && r[l] == s[l]);
                } else {
                    assert(s[l] == objs.last());
                    assert(prefix.contains(r[k]));
                    let i = choose|i: int| 0 <= i < prefix.len() && prefix[i] == r[k];
                    assert(objs[i] == r[k]);
                    assert(objs[i].id < objs[objs.len() - 1].id);
                }
            }
        }
    }
}

/// Two object sequences that agree pointwise on identifiers carry the same
/// identifiers.
proof fn lemma_ids_pointwise(a: Seq<ObjectEntity>, b: Seq<ObjectEntity>)
    requires
        a.len() == b.len(),
        forall|i: int| 0 <= i < a.len() ==> a[i].id == #[trigger] b[i].id,
    ensures
        forall|id: u64| contains_id(a, id) == contains_id(b, id),
{
    assert forall|id: u64| contains_id(a, id) == contains_id(b, id) by {
        if contains_id(a, id) {
            let i = choose|i: int| 0 <= i < a.len() && a[i].id == id;
            assert(b[i].id == id);
        }
        if contains_id(b, id) {
            let i = choose|i: int| 0 <= i < b.len() && b[i].id == id;
            assert(a[i].id == id);
        }
    }
}

/// One coordinate after one frame of integration.
fn move_coord(p: i64, v: i64, delta: u64, ups: u64) -> (r: i64)
    requires
        -POS_LIMIT <= p <= POS_LIMIT,
        -(MOVE_SPEED as int) <= v as int <= MOVE_SPEED as int,
        delta <= MAX_DELTA,
        1 <= ups,
    ensures
        r as int == p + displacement(v as int, delta as int, ups as int),
        -POS_STEP_LIMIT <= r <= POS_STEP_LIMIT,
{
    if v >= 0 {
        proof {
            assert((v as int) * (delta as int) <= 100_000_000_000int) by (nonlinear_arith)
                requires
                    0 <= v <= 100,
                    0 <= delta <= 1_000_000_000,
            ;
            lemma_div_basics_4((v as int) * (delta as int), ups as int);
            lemma_div_basics_5((v as int) * (delta as int), ups as int);
        }
        let d: u64 = (v as u64) * delta / ups;
        p + (d as i64)
    } else {
        proof {
            assert((-(v as int)) * (delta as int) <= 100_000_000_000int) by (nonlinear_arith)
                requires
                    0 <= -(v as int) <= 100,
                    0 <= delta <= 1_000_000_000,
            ;
            lemma_div_basics_4((-(v as int)) * (delta as int), ups as int);
            lemma_div_basics_5((-(v as int)) * (delta as int), ups as int);
        }
        let d: u64 = ((-v) as u64) * delta / ups;
        p - (d as i64)
    }
}

impl World {
    /// A world is well formed when its timer is, its time scale is positive,
    /// the player's speed is bounded per axis, every object is well formed,
    /// and object identifiers are strictly increasing (so unique).
    pub open spec fn wf(self) -> bool {
        &&& self.spawn_timer.wf()
        &&& 1 <= self.units_per_second
        &&& -(MOVE_SPEED as int) <= self.player_vx as int <= MOVE_SPEED as int
        &&& -(MOVE_SPEED as int) <= self.player_vy as int <= MOVE_SPEED as int
        &&& forall|i: int|
            0 <= i < self.objects@.len() ==> obj_wf(#[trigger] self.objects@[i], self.next_id)
        &&& forall|i: int, j: int|
            0 <= i < j < self.objects@.len() ==> self.objects@[i].id < self.objects@[j].id
    }

    /// Every position is within `POS_LIMIT`; the frame step needs this to
    /// keep all arithmetic inside the machine integers.
    pub open spec fn positions_ok(self) -> bool {
        &&& -(POS_LIMIT as int) <= self.player_x as int <= POS_LIMIT as int
        &&& -(POS_LIMIT as int) <= self.player_y as int <= POS_LIMIT as int
        &&& forall|i: int|
            0 <= i < self.objects@.len() ==> {
                &&& -(POS_LIMIT as int) <= #[trigger] self.objects@[i].x as int <= POS_LIMIT as int
                &&& -(POS_LIMIT as int) <= self.objects@[i].y as int <= POS_LIMIT as int
            }
    }

    /// Every position is within `POS_STEP_LIMIT`: what holds right after one
    /// frame's integration.
    pub open spec fn positions_stepped_ok(self) -> bool {
        &&& -(POS_STEP_LIMIT as int) <= self.player_x as int <= POS_STEP_LIMIT as int
        &&& -(POS_STEP_LIMIT as int) <= self.player_y as int <= POS_STEP_LIMIT as int
        &&& forall|i: int|
            0 <= i < self.objects@.len() ==> {
                &&& -(POS_STEP_LIMIT as int) <= #[trigger] self.objects@[i].x as int
                    <= POS_STEP_LIMIT as int
                &&& -(POS_STEP_LIMIT as int) <= self.objects@[i].y as int <= POS_STEP_LIMIT as int
            }
    }

    /// A fresh world: the player (exactly one, by construction) at the
    /// origin with zero velocity, no objects, and a spawn timer with the
    /// given repeating interval, in time units of `1 / units_per_second`
    /// seconds.
    pub fn new(spawn_interval: u64, units_per_second: u64) -> (w: World)
        requires
            0 < spawn_interval <= MAX_INTERVAL,
            1 <= units_per_second,
        ensures
            w.wf(),
            w.positions_ok(),
            w.player_x == 0 && w.player_y == 0,
            w.player_vx == 0 && w.player_vy == 0,
            w.objects@ == Seq::<ObjectEntity>::empty(),
            w.spawn_timer.interval == spawn_interval,
            w.spawn_timer.elapsed == 0,
            w.next_id == 0,
            w.units_per_second == units_per_second,
    {
        World {
            player_x: 0,
            player_y: 0,
            player_vx: 0,
            player_vy: 0,
            objects: Vec::new(),
            spawn_timer: RepeatTimer::new(spawn_interval),
            next_id: 0,
            units_per_second,
        }
    }

    /// Motion controller: overwrite the player's velocity from the pressed
    /// movement keys — every frame, including to zero when nothing is
    /// pressed, so the player has no inertia.
    pub fn move_player(&mut self, keys: KeyState)
        requires
            old(self).wf(),
        ensures
            final(self).wf(),
            final(self).player_vx as int == axis_velocity(keys.left, keys.right),
            final(self).player_vy as int == axis_velocity(keys.down, keys.up),
            final(self).player_x == old(self).player_x,
            final(self).player_y == old(self).player_y,
            final(self).objects@ == old(self).objects@,
            final(self).spawn_timer == old(self).spawn_timer,
            final(self).next_id == old(self).next_id,
            final(self).units_per_second == old(self).units_per_second,
    {
        let v = player_velocity(keys);
        self.player_vx = v.0;
        self.player_vy = v.1;
    }

    /// Kinematic integration: advance the player and every object by its
    /// velocity times the frame delta, with zero ambient gravity.
    pub fn integrate(&mut self, delta: u64)
        requires
            old(self).wf(),
            old(self).positions_ok(),
            delta <= MAX_DELTA,
        ensures
            final(self).wf(),
            final(self).positions_stepped_ok(),
            final(self).player_x as int == old(self).player_x + displacement(
                old(self).player_vx as int,
                delta as int,
                old(self).units_per_second as int,
            ),
            final(self).player_y as int == old(self).player_y + displacement(
                old(self).player_vy as int,
                delta as int,
                old(self).units_per_second as int,
            ),
            final(self).objects@ == integrated_seq(
                old(self).objects@,
                delta as int,
                old(self).units_per_second as int,
            ),
            final(self).player_vx == old(self).player_vx,
            final(self).player_vy == old(self).player_vy,
            final(self).spawn_timer == old(self).spawn_timer,
            final(self).next_id == old(self).next_id,
            final(self).units_per_second == old(self).units_per_second,
    {
        let ups = self.units_per_second;
        self.player_x = move_coord(self.player_x, self.player_vx, delta, ups);
        self.player_y = move_coord(self.player_y, self.player_vy, delta, ups);
        let ghost orig = self.objects@;
        let mut updated: Vec<ObjectEntity> = Vec::new();
        let mut i: usize = 0;
        while i < self.objects.len()
            invariant
                self.objects@ == orig,
                i <= orig.len(),
                updated@.len() == i,
                delta <= MAX_DELTA,
                1 <= ups,
                forall|j: int| 0 <= j < orig.len() ==> obj_wf(#[trigger] orig[j], self.next_id),
                forall|j: int|
                    0 <= j < orig.len() ==> {
                        &&& -(POS_LIMIT as int) <= #[trigger] orig[j].x as int <= POS_LIMIT as int
                        &&& -(POS_LIMIT as int) <= orig[j].y as int <= POS_LIMIT as int
                    },
                forall|j: int|
                    0 <= j < i ==> #[trigger] updated@[j] == integrated_obj(
                        orig[j],
                        delta as int,
                        ups as int,
                    ),
                forall|j: int|
                    0 <= j < i ==> {
                        &&& -(POS_STEP_LIMIT as int) <= #[trigger] updated@[j].x as int
                            <= POS_STEP_LIMIT as int
                        &&& -(POS_STEP_LIMIT as int) <= updated@[j].y as int <= POS_STEP_LIMIT as int
                    },
            decreases orig.len() - i,
        {
            let o = self.objects[i];
            let nx = move_coord(o.x, o.vx, delta, ups);
            let ny = move_coord(o.y, o.vy, delta, ups);
            updated.push(
                ObjectEntity { id: o.id, x: nx, y: ny, vx: o.vx, vy: o.vy, variant: o.variant },
            );
            i = i + 1;
        }
        proof {
            assert(updated@ =~= integrated_seq(orig, delta as int, ups as int));
        }
        self.objects = updated;
    }

    /// Collision resolver: for every object whose sensor currently overlaps
    /// the player's, re-aim its velocity at the player's current position at
    /// `ATTRACT_SPEED`; an object exactly at the player's position is left
    /// untouched this frame (degenerate direction). Other objects keep their
    /// velocity; the player is never mutated.
    pub fn detect_collisions(&mut self)
        requires
            old(self).wf(),
            old(self).positions_stepped_ok(),
        ensures
            final(self).wf(),
            final(self).positions_stepped_ok(),
            final(self).objects@ == resolved_seq(
                old(self).objects@,
                old(self).player_x as int,
                old(self).player_y as int,
            ),
            final(self).player_x == old(self).player_x,
            final(self).player_y == old(self).player_y,
            final(self).player_vx == old(self).player_vx,
            final(self).player_vy == old(self).player_vy,
            final(self).spawn_timer == old(self).spawn_timer,
            final(self).next_id == old(self).next_id,
            final(self).units_per_second == old(self).units_per_second,
    {
        let px = self.player_x;
        let py = self.player_y;
        let ghost orig = self.objects@;
        let mut updated: Vec<ObjectEntity> = Vec::new();
        let mut i: usize = 0;
        while i < self.objects.len()
            invariant
                self.objects@ == orig,
                i <= orig.len(),
                updated@.len() == i,
                -(POS_STEP_LIMIT as int) <= px as int <= POS_STEP_LIMIT as int,
                -(POS_STEP_LIMIT as int) <= py as int <= POS_STEP_LIMIT as int,
                forall|j: int| 0 <= j < orig.len() ==> obj_wf(#[trigger] orig[j], self.next_id),
                forall|j: int|
                    0 <= j < orig.len() ==> {
                        &&& -(POS_STEP_LIMIT as int) <= #[trigger] orig[j].x as int
                            <= POS_STEP_LIMIT as int
                        &&& -(POS_STEP_LIMIT as int) <= orig[j].y as int <= POS_STEP_LIMIT as int
                    },
                forall|j: int|
                    0 <= j < i ==> #[trigger] updated@[j] == resolved_obj(
                        orig[j],
                        px as int,
                        py as int,
                    ),
                forall|j: int| 0 <= j < i ==> obj_wf(#[trigger] updated@[j], self.next_id),
            decreases orig.len() - i,
        {
            let o = self.objects[i];
            let dx: i128 = px as i128 - o.x as i128;
            let dy: i128 = py as i128 - o.y as i128;
            proof {
                assert(0 <= dx * dx <= 16_000_000_000_000_000_000_000_000int && 0 <= dy * dy
                    <= 16_000_000_000_000_000_000_000_000int) by (nonlinear_arith)
                    requires
                        -4_000_000_000_000 <= dx <= 4_000_000_000_000,
                        -4_000_000_000_000 <= dy <= 4_000_000_000_000,
                ;
                assert(((PLAYER_RADIUS + OBJECT_RADIUS) as int) * ((PLAYER_RADIUS
                    + OBJECT_RADIUS) as int) == 90_000int) by (nonlinear_arith);
            }
            let d2: i128 = dx * dx + dy * dy;
            if d2 <= 90_000 {
                match attract_velocity(px, py, o.x, o.y) {
                    Some(v) => {
                        proof {
                            lemma_attraction_points_toward_player(
                                px as int,
                                py as int,
                                o.x as int,
                                o.y as int,
                            );
                        }
                        updated.push(
                            ObjectEntity {
                                id: o.id,
                                x: o.x,
                                y: o.y,
                                vx: v.0,
                                vy: v.1,
                                variant: o.variant,
                            },
                        );
                    },
                    None => {
                        updated.push(o);
                    },
                }
            } else {
                updated.push(o);
            }
            i = i + 1;
        }
        proof {
            assert(updated@ =~= resolved_seq(orig, px as int, py as int));
        }
        self.objects = updated;
    }

    /// Consumption rule: destroy every object within the square proximity
    /// threshold of the player on both axes. Removal is immediate: the
    /// object is absent from this world from here on, and, since fresh
    /// identifiers never repeat, it can never reappear.
    pub fn consume_planets(&mut self)
        requires
            old(self).wf(),
        ensures
            final(self).wf(),
            final(self).objects@ == surviving(
                old(self).objects@,
                old(self).player_x as int,
                old(self).player_y as int,
            ),
            final(self).player_x == old(self).player_x,
            final(self).player_y == old(self).player_y,
            final(self).player_vx == old(self).player_vx,
            final(self).player_vy == old(self).player_vy,
            final(self).spawn_timer == old(self).spawn_timer,
            final(self).next_id == old(self).next_id,
            final(self).units_per_second == old(self).units_per_second,
    {
        let px = self.player_x;
        let py = self.player_y;
        let ghost orig = self.objects@;
        let mut kept: Vec<ObjectEntity> = Vec::new();
        let mut i: usize = 0;
        while i < self.objects.len()
            invariant
                self.objects@ == orig,
                i <= orig.len(),
                kept@ == surviving(orig.take(i as int), px as int, py as int),
            decreases orig.len() - i,
        {
            let o = self.objects[i];
            let dx: i128 = px as i128 - o.x as i128;
            let dy: i128 = py as i128 - o.y as i128;
            let close = -25 <= dx && dx <= 25 && -25 <= dy && dy <= 25;
            proof {
                assert(orig.take(i + 1 as int).drop_last() =~= orig.take(i as int));
                assert(orig.take(i + 1 as int).last() == orig[i as int]);
            }
            if !close {
                kept.push(o);
            }
            i = i + 1;
        }
        proof {
            assert(orig.take(orig.len() as int) =~= orig);
            lemma_surviving_wf(orig, px as int, py as int, self.next_id);
        }
        self.objects = kept;
    }

    /// Create one object at the given position with zero velocity and the
    /// given palette variant, assigning it the next fresh identifier.
    pub fn spawn_object_at(&mut self, x: i64, y: i64, variant: u8)
        requires
            old(self).wf(),
            -SPAWN_HALF_EXTENT <= x <= SPAWN_HALF_EXTENT,
            -SPAWN_HALF_EXTENT <= y <= SPAWN_HALF_EXTENT,
            variant < VARIANT_COUNT,
            old(self).next_id < u64::MAX,
        ensures
            final(self).wf(),
            final(self).objects@ == old(self).objects@.push(
                ObjectEntity { id: old(self).next_id, x, y, vx: 0, vy: 0, variant },
            ),
            final(self).next_id == old(self).next_id + 1,
            final(self).player_x == old(self).player_x,
            final(self).player_y == old(self).player_y,
            final(self).player_vx == old(self).player_vx,
            final(self).player_vy == old(self).player_vy,
            final(self).spawn_timer == old(self).spawn_timer,
            final(self).units_per_second == old(self).units_per_second,
    {
        let o = ObjectEntity { id: self.next_id, x, y, vx: 0, vy: 0, variant };
        self.objects.push(o);
        self.next_id = self.next_id + 1;
    }

    /// Spawner: advance the spawn timer by the frame delta; when the
    /// interval just finished, create exactly one object at a position drawn
    /// uniformly from the spawn square, with a variant drawn uniformly from
    /// the palette, zero velocity, and a fresh identifier. There is no upper
    /// bound on live objects.
    pub fn spawn_objects(&mut self, delta: u64) -> (spawned: bool)
        requires
            old(self).wf(),
            delta <= MAX_DELTA,
            old(self).next_id < u64::MAX,
        ensures
            final(self).wf(),
            spawned == (old(self).spawn_timer.elapsed + delta >= old(self).spawn_timer.interval),
            final(self).spawn_timer.interval == old(self).spawn_timer.interval,
            final(self).spawn_timer.elapsed as int == (old(self).spawn_timer.elapsed + delta) % (
            old(self).spawn_timer.interval as int),
            !spawned ==> final(self).objects@ == old(self).objects@ && final(self).next_id == old(
                self,
            ).next_id,
            spawned ==> {
                &&& final(self).next_id == old(self).next_id + 1
                &&& final(self).objects@.len() == old(self).objects@.len() + 1
                &&& final(self).objects@.drop_last() == old(self).objects@
                &&& final(self).objects@.last().id == old(self).next_id
                &&& final(self).objects@.last().vx == 0 && final(self).objects@.last().vy == 0
                &&& -SPAWN_HALF_EXTENT <= final(self).objects@.last().x <= SPAWN_HALF_EXTENT
                &&& -SPAWN_HALF_EXTENT <= final(self).objects@.last().y <= SPAWN_HALF_EXTENT
                &&& final(self).objects@.last().variant < VARIANT_COUNT
            },
            final(self).player_x == old(self).player_x,
            final(self).player_y == old(self).player_y,
            final(self).player_vx == old(self).player_vx,
            final(self).player_vy == old(self).player_vy,
            final(self).units_per_second == old(self).units_per_second,
    {
        let spawned = self.spawn_timer.tick(delta);
        if spawned {
            let x = random_i64_between(-SPAWN_HALF_EXTENT, SPAWN_HALF_EXTENT);
            let y = random_i64_between(-SPAWN_HALF_EXTENT, SPAWN_HALF_EXTENT);
            let pick = random_i64_between(0, (VARIANT_COUNT - 1) as i64);
            self.spawn_object_at(x, y, pick as u8);
            proof {
                assert(self.objects@.drop_last() =~= old(self).objects@);
            }
        }
        spawned
    }

    /// One simulation frame, in the required phase order: motion controller,
    /// kinematic integration, collision resolver (which therefore observes
    /// overlaps of positions already updated this frame), consumption rule
    /// (after velocities are resolved, so a newly homed object already
    /// within the threshold is consumed the same frame), then the spawner.
    /// Returns whether the spawner fired.
    pub fn step_frame(&mut self, keys: KeyState, delta: u64) -> (spawned: bool)
        requires
            old(self).wf(),
            old(self).positions_ok(),
            delta <= MAX_DELTA,
            old(self).next_id < u64::MAX,
        ensures
            final(self).wf(),
            final(self).player_vx as int == axis_velocity(keys.left, keys.right),
            final(self).player_vy as int == axis_velocity(keys.down, keys.up),
            final(self).player_x as int == old(self).player_x + displacement(
                axis_velocity(keys.left, keys.right),
                delta as int,
                old(self).units_per_second as int,
            ),
            final(self).player_y as int == old(self).player_y + displacement(
                axis_velocity(keys.down, keys.up),
                delta as int,
                old(self).units_per_second as int,
            ),
            ({
                let objs1 = integrated_seq(
                    old(self).objects@,
                    delta as int,
                    old(self).units_per_second as int,
                );
                let objs2 = resolved_seq(
                    objs1,
                    final(self).player_x as int,
                    final(self).player_y as int,
                );
                let objs3 = surviving(
                    objs2,
                    final(self).player_x as int,
                    final(self).player_y as int,
                );
                if spawned {
                    final(self).objects@.len() == objs3.len() + 1
                        && final(self).objects@.drop_last() == objs3
                } else {
                    final(self).objects@ == objs3
                }
            }),
            spawned == (old(self).spawn_timer.elapsed + delta >= old(self).spawn_timer.interval),
            final(self).spawn_timer.interval == old(self).spawn_timer.interval,
            final(self).spawn_timer.elapsed as int == (old(self).spawn_timer.elapsed + delta) % (
            old(self).spawn_timer.interval as int),
            final(self).next_id == old(self).next_id + (if spawned {
                1int
            } else {
                0int
            }),
            // Consumption is irreversible: an identifier below the watermark
            // that is absent stays absent forever after.
            forall|id: u64|
                id < old(self).next_id && !contains_id(old(self).objects@, id) ==> !contains_id(
                    final(self).objects@,
                    id,
                ),
            final(self).units_per_second == old(self).units_per_second,
    {
        self.move_player(keys);
        self.integrate(delta);
        let ghost w2 = *self;
        self.detect_collisions();
        let ghost w3 = *self;
        self.consume_planets();
        let ghost w4 = *self;
        let spawned = self.spawn_objects(delta);
        proof {
            let objs0 = old(self).objects@;
            let objs1 = w2.objects@;
            let objs2 = w3.objects@;
            let objs3 = w4.objects@;
            assert forall|id: u64|
                id < old(self).next_id && !contains_id(objs0, id) implies !contains_id(
                self.objects@,
                id,
            ) by {
                lemma_ids_pointwise(objs0, objs1);
                lemma_ids_pointwise(objs1, objs2);
                lemma_surviving_wf(
                    objs2,
                    w3.player_x as int,
                    w3.player_y as int,
                    old(self).next_id,
                );
                assert(!contains_id(objs3, id));
                if spawned {
                    assert(self.objects@ == objs3.push(self.objects@.last()));
                    if contains_id(self.objects@, id) {
                        let i = choose|i: int|
                            0 <= i < self.objects@.len() && self.objects@[i].id == id;
                        if i < objs3.len() {
                            assert(objs3[i].id == id);
                        } else {
                            assert(self.objects@[i].id == old(self).next_id);
                        }
                    }
                } else {
                    assert(self.objects@ == objs3);
                }
            }
        }
        spawned
    }
}

} // verus!
