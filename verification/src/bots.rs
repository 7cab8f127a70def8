//! The flock controller: deterministic spawning of autonomous agents and
//! the per-tick update that steers every autonomous agent by blending
//! alignment, separation and cohesion forces computed from its visible
//! neighbours.

use crate::bird::{
    advance_m, can_see_m, dist_sq_m, modify_direction_m, new_m, set_speed_m, Bird, BirdM,
    COORD_CAP, SPEED_CAP, TARGET_SPEED,
};
use crate::math::{abs_val, div_trunc, lemma_div_trunc_bound, rem_trunc};
use crate::trig::{cos_of, lemma_heading_norm_lower, sin_of, TWO_PI_MILLI};
use crate::vec2::Vec2;
use vstd::prelude::*;
use vstd::assert_seqs_equal;

verus! {

/// Speed every freshly spawned autonomous agent is set to.
pub const BOT_DEFAULT_SPEED: i64 = TARGET_SPEED;

/// Blend weight, in thousandths, with which the flocking forces steer an
/// autonomous agent each tick.
pub const PEER_PRESSURE_FACTOR: i64 = 300;

/// Radius of an agent's personal space, in fixed-point units (half the
/// sight radius).
pub const PERSONAL_SPACE: i64 = 12_500;

/// The squared personal-space radius (`PERSONAL_SPACE` squared).
pub const PERSONAL_SPACE_SQUARED: i64 = 156_250_000;

/// Strength of the separation force, in thousandths.
pub const PERSONAL_SPACE_STRENGTH: i64 = 200;

/// Gain of the cohesion force, in thousandths.
pub const COHESION_FACTOR: i64 = 10;

/// One step of the deterministic spawn sequence.
pub open spec fn hash_step(s: int) -> int {
    (s * 5 / 4 + 14_351_000) % 16_935_000
}

/// The spawn sequence: a fixed seed followed by repeated `hash_step`s.
pub open spec fn seed_at(k: nat) -> int
    decreases k,
{
    if k == 0 {
        3_453_457_000
    } else {
        hash_step(seed_at((k - 1) as nat))
    }
}

/// Mapping of a draw into `[min, max)` by a truncating remainder; draws
/// below `min` land below it by the remainder's sign.
pub open spec fn in_mod_m(value: int, min: int, max: int) -> int {
    rem_trunc(value - min, max - min) + min
}

/// The agent the spawn generator produces at index `k`: position drawn
/// per axis, heading drawn as an angle and mapped through cosine/sine,
/// speed forced to the default cruise speed.
pub open spec fn spawn_bird_m(k: nat, min: (int, int), max: (int, int)) -> BirdM {
    let pos = (
        in_mod_m(seed_at(3 * k + 1), min.0, max.0),
        in_mod_m(seed_at(3 * k + 2), min.1, max.1),
    );
    let angle = in_mod_m(seed_at(3 * k + 3), 0, 6284);
    set_speed_m(new_m(pos, (cos_of(angle), sin_of(angle))), BOT_DEFAULT_SPEED as int)
}

fn iterate_hash(h: &mut u64) -> (r: i64)
    requires
        *old(h) <= 4_000_000_000,
    ensures
        *final(h) == hash_step(*old(h) as int),
        0 <= *final(h) < 16_935_000,
        r == *final(h),
{
    *h = (*h * 5 / 4 + 14_351_000) % 16_935_000;
    *h as i64
}

/// Map `value` into `[min, max)` by a truncating remainder, as the spawn
/// generator does; a value below `min` may land below the range.
pub fn in_modulo_range(value: i64, min: i64, max: i64) -> (r: i64)
    requires
        min < max,
        -1_000_000_000 <= min,
        max <= 1_000_000_000,
        -1_000_000_000_000 <= value <= 1_000_000_000_000,
    ensures
        r == in_mod_m(value as int, min as int, max as int),
        2 * min - max < r < max,
        value >= min ==> min <= r,
{
    (value - min) % (max - min) + min
}

/// The unit heading of an angle in milliradians, in fixed-point
/// coordinates.
pub fn angle_to_coords(angle_milli: i64) -> (r: Vec2)
    requires
        -1_000_000_000_000 <= angle_milli <= 1_000_000_000_000,
    ensures
        r.x == cos_of(angle_milli as int),
        r.y == sin_of(angle_milli as int),
        -1000 <= r.x <= 1000,
        -1000 <= r.y <= 1000,
{
    Vec2 { x: crate::trig::cos_milli(angle_milli), y: crate::trig::sin_milli(angle_milli) }
}

/// Spawn `count` autonomous agents with deterministically drawn
/// positions in roughly `[min_pos, max_pos)` and random headings, each
/// at the default cruise speed.  The same arguments always produce the
/// same agents.
pub fn spawn_birds(count: usize, min_pos: Vec2, max_pos: Vec2) -> (bots: Vec<Bird>)
    requires
        -300_000_000 <= min_pos.x < max_pos.x <= 300_000_000,
        -300_000_000 <= min_pos.y < max_pos.y <= 300_000_000,
    ensures
        bots@.len() == count,
        forall|k: int|
            0 <= k < count ==> (#[trigger] bots@[k]).m() == spawn_bird_m(
                k as nat,
                (min_pos.x as int, min_pos.y as int),
                (max_pos.x as int, max_pos.y as int),
            ),
        forall|k: int| 0 <= k < count ==> (#[trigger] bots@[k]).wf(),
{
    let mut seed: u64 = 3_453_457_000;
    let mut bots: Vec<Bird> = Vec::new();
    let mut i: usize = 0;
    while i < count
        invariant
            i <= count,
            bots@.len() == i,
            seed as int == seed_at(3 * i as nat),
            seed <= 4_000_000_000,
            -300_000_000 <= min_pos.x < max_pos.x <= 300_000_000,
            -300_000_000 <= min_pos.y < max_pos.y <= 300_000_000,
            forall|k: int|
                0 <= k < i ==> (#[trigger] bots@[k]).m() == spawn_bird_m(
                    k as nat,
                    (min_pos.x as int, min_pos.y as int),
                    (max_pos.x as int, max_pos.y as int),
                ),
            forall|k: int| 0 <= k < i ==> (#[trigger] bots@[k]).wf(),
        decreases count - i,
    {
        let vx = iterate_hash(&mut seed);
        proof {
            assert(seed_at(3 * i as nat + 1) == hash_step(seed_at(3 * i as nat)));
        }
        let x = in_modulo_range(vx, min_pos.x, max_pos.x);
        let vy = iterate_hash(&mut seed);
        proof {
            assert(seed_at(3 * i as nat + 2) == hash_step(seed_at(3 * i as nat + 1)));
        }
        let y = in_modulo_range(vy, min_pos.y, max_pos.y);
        let va = iterate_hash(&mut seed);
        proof {
            assert(seed_at(3 * i as nat + 3) == hash_step(seed_at(3 * i as nat + 2)));
        }
        let angle = in_modulo_range(va, 0, TWO_PI_MILLI);
        let dir = angle_to_coords(angle);
        proof {
            lemma_heading_norm_lower(angle as int);
            assert(seed as int == seed_at(3 * i as nat + 3));
            assert(3 * (i + 1) as nat == 3 * i as nat + 3);
        }
        let mut bird = Bird::new(Vec2 { x, y }, dir);
        bird.set_speed(BOT_DEFAULT_SPEED);
        bots.push(bird);
        i = i + 1;
    }
    bots
}

/// Accumulates positions to average them: the running sum and the count
/// of added positions.
pub struct PositionAccumulator {
    pub added_positions: Vec2,
    pub position_count: i64,
}

impl PositionAccumulator {
    pub fn new() -> (r: PositionAccumulator)
        ensures
            r.added_positions.x == 0,
            r.added_positions.y == 0,
            r.position_count == 0,
    {
        PositionAccumulator { added_positions: Vec2 { x: 0, y: 0 }, position_count: 0 }
    }

    pub fn add_position(&mut self, other_pos: Vec2)
        requires
            abs_val(old(self).added_positions.x as int) <= 1_000_000_000_000_000,
            abs_val(old(self).added_positions.y as int) <= 1_000_000_000_000_000,
            abs_val(other_pos.x as int) <= 1_000_000_000,
            abs_val(other_pos.y as int) <= 1_000_000_000,
            0 <= old(self).position_count < 1_000_000_000,
        ensures
            final(self).added_positions.x == old(self).added_positions.x + other_pos.x,
            final(self).added_positions.y == old(self).added_positions.y + other_pos.y,
            final(self).position_count == old(self).position_count + 1,
    {
        self.added_positions = Vec2 {
            x: self.added_positions.x + other_pos.x,
            y: self.added_positions.y + other_pos.y,
        };
        self.position_count = self.position_count + 1;
    }

    /// The componentwise average of the added positions.
    pub fn get_average(&self) -> (r: Vec2)
        requires
            self.position_count > 0,
        ensures
            r.x == div_trunc(self.added_positions.x as int, self.position_count as int),
            r.y == div_trunc(self.added_positions.y as int, self.position_count as int),
    {
        Vec2 {
            x: self.added_positions.x / self.position_count,
            y: self.added_positions.y / self.position_count,
        }
    }
}

/// The separation force away from the closest neighbour: zero unless
/// the neighbour is strictly inside the personal space, in which case it
/// is the offset to the neighbour, reversed and scaled by the fixed
/// separation strength.
pub open spec fn separation_m(own: (int, int), closest: (int, int), d2: int) -> (int, int) {
    if d2 < PERSONAL_SPACE_SQUARED {
        (
            div_trunc(-(closest.0 - own.0) * PERSONAL_SPACE_STRENGTH, 1000),
            div_trunc(-(closest.1 - own.1) * PERSONAL_SPACE_STRENGTH, 1000),
        )
    } else {
        (0, 0)
    }
}

/// The separation force of an agent at `own_pos` from its closest
/// neighbour at `closest_pos` at squared distance `closest_d2`.
///
/// Separation triggers only inside the personal space: at or beyond the
/// threshold the result is the zero vector; strictly inside, it is
/// nonzero whenever the neighbour offset is at least five fixed-point
/// units on some axis, and it points away from the neighbour.
pub fn separation_force(own_pos: Vec2, closest_pos: Vec2, closest_d2: i64) -> (r: Vec2)
    requires
        abs_val(own_pos.x as int) <= COORD_CAP,
        abs_val(own_pos.y as int) <= COORD_CAP,
        abs_val(closest_pos.x as int) <= COORD_CAP,
        abs_val(closest_pos.y as int) <= COORD_CAP,
    ensures
        (r.x as int, r.y as int) == separation_m(
            (own_pos.x as int, own_pos.y as int),
            (closest_pos.x as int, closest_pos.y as int),
            closest_d2 as int,
        ),
        closest_d2 >= PERSONAL_SPACE_SQUARED ==> r.x == 0 && r.y == 0,
        closest_d2 < PERSONAL_SPACE_SQUARED && closest_pos.x >= own_pos.x ==> r.x <= 0,
        closest_d2 < PERSONAL_SPACE_SQUARED && closest_pos.x <= own_pos.x ==> r.x >= 0,
        closest_d2 < PERSONAL_SPACE_SQUARED && closest_pos.y >= own_pos.y ==> r.y <= 0,
        closest_d2 < PERSONAL_SPACE_SQUARED && closest_pos.y <= own_pos.y ==> r.y >= 0,
        abs_val(r.x as int) <= 400_000_000,
        abs_val(r.y as int) <= 400_000_000,
    {
    if closest_d2 < PERSONAL_SPACE_SQUARED {
        let dx: i64 = closest_pos.x - own_pos.x;
        let dy: i64 = closest_pos.y - own_pos.y;
        proof {
            lemma_div_trunc_bound(-dx as int * 200, 1000, 400_000_000);
            lemma_div_trunc_bound(-dy as int * 200, 1000, 400_000_000);
        }
        Vec2 { x: (-dx * 200) / 1000, y: (-dy * 200) / 1000 }
    } else {
        Vec2 { x: 0, y: 0 }
    }
}

/// The cohesion force toward the centroid of the visible neighbours.
pub open spec fn cohesion_m(own: (int, int), average: (int, int)) -> (int, int) {
    (
        div_trunc((average.0 - own.0) * COHESION_FACTOR, 1000),
        div_trunc((average.1 - own.1) * COHESION_FACTOR, 1000),
    )
}

/// The cohesion force of an agent at `own_pos` toward `average_pos`, the
/// centroid of its visible neighbours.
///
/// Cohesion pulls toward the centroid: the force is the offset from the
/// agent to the centroid, scaled down by the fixed cohesion gain, so
/// each component has the sign of the offset.
pub fn cohesion_force(own_pos: Vec2, average_pos: Vec2) -> (r: Vec2)
    requires
        abs_val(own_pos.x as int) <= COORD_CAP,
        abs_val(own_pos.y as int) <= COORD_CAP,
        abs_val(average_pos.x as int) <= COORD_CAP,
        abs_val(average_pos.y as int) <= COORD_CAP,
    ensures
        (r.x as int, r.y as int) == cohesion_m(
            (own_pos.x as int, own_pos.y as int),
            (average_pos.x as int, average_pos.y as int),
        ),
        average_pos.x >= own_pos.x ==> r.x >= 0,
        average_pos.x <= own_pos.x ==> r.x <= 0,
        average_pos.y >= own_pos.y ==> r.y >= 0,
        average_pos.y <= own_pos.y ==> r.y <= 0,
        abs_val(r.x as int) <= 20_000_000,
        abs_val(r.y as int) <= 20_000_000,
{
    let dx: i64 = average_pos.x - own_pos.x;
    let dy: i64 = average_pos.y - own_pos.y;
    proof {
        lemma_div_trunc_bound(dx as int * 10, 1000, 20_000_000);
        lemma_div_trunc_bound(dy as int * 10, 1000, 20_000_000);
    }
    Vec2 { x: (dx * 10) / 1000, y: (dy * 10) / 1000 }
}

/// The neighbour statistics one agent gathers in a scan: summed visible
/// headings and positions with their count, and the closest neighbour
/// seen so far with its squared distance.
pub ghost struct ScanState {
    pub dir_sum: (int, int),
    pub pos_sum: (int, int),
    pub count: int,
    pub closest_pos: (int, int),
    pub closest_d2: int,
}

/// The scan's starting state: the player is accumulated if visible and
/// is always the first closest-neighbour candidate.
pub open spec fn scan_init(me: BirdM, player: BirdM) -> ScanState {
    ScanState {
        dir_sum: if can_see_m(me, player) {
            player.dir
        } else {
            (0, 0)
        },
        pos_sum: if can_see_m(me, player) {
            player.pos
        } else {
            (0, 0)
        },
        count: if can_see_m(me, player) {
            1
        } else {
            0
        },
        closest_pos: player.pos,
        closest_d2: dist_sq_m(player, me),
    }
}

/// One scan step over a single other agent: accumulate it if visible,
/// and track it as closest if strictly closer than the closest so far.
pub open spec fn scan_step(st: ScanState, me: BirdM, other: BirdM) -> ScanState {
    let st1 = if can_see_m(me, other) {
        ScanState {
            dir_sum: (st.dir_sum.0 + other.dir.0, st.dir_sum.1 + other.dir.1),
            pos_sum: (st.pos_sum.0 + other.pos.0, st.pos_sum.1 + other.pos.1),
            count: st.count + 1,
            ..st
        }
    } else {
        st
    };
    let d = dist_sq_m(me, other);
    if d < st1.closest_d2 {
        ScanState { closest_pos: other.pos, closest_d2: d, ..st1 }
    } else {
        st1
    }
}

/// The scan of agent `i` over the first `j` agents of `birds` (skipping
/// itself), starting from the player.
pub open spec fn scan_upto(birds: Seq<BirdM>, i: int, me: BirdM, player: BirdM, j: int) -> ScanState
    decreases j,
{
    if j <= 0 {
        scan_init(me, player)
    } else {
        let st = scan_upto(birds, i, me, player, j - 1);
        if j - 1 == i {
            st
        } else {
            scan_step(st, me, birds[j - 1])
        }
    }
}

/// The steering vector a scan produces: the average visible heading,
/// plus separation from the closest neighbour, plus cohesion toward the
/// visible centroid.  With no visible neighbour the alignment and
/// cohesion contributions are the zero vector.
pub open spec fn modifier_m(st: ScanState, me: BirdM) -> (int, int) {
    let alignment = if st.count > 0 {
        (div_trunc(st.dir_sum.0, st.count), div_trunc(st.dir_sum.1, st.count))
    } else {
        (0, 0)
    };
    let separation = separation_m(me.pos, st.closest_pos, st.closest_d2);
    let cohesion = if st.count > 0 {
        cohesion_m(me.pos, (div_trunc(st.pos_sum.0, st.count), div_trunc(st.pos_sum.1, st.count)))
    } else {
        (0, 0)
    };
    (
        alignment.0 + separation.0 + cohesion.0,
        alignment.1 + separation.1 + cohesion.1,
    )
}

/// One agent's tick: advance it toroidally, scan all other agents and
/// the player from its new position, and steer it by the resulting
/// modifier with the fixed blend weight.
pub open spec fn flock_one(birds: Seq<BirdM>, i: int, player: BirdM, w: int, h: int) -> Seq<BirdM> {
    let b1 = advance_m(birds[i], w, h);
    let cur = birds.update(i, b1);
    let st = scan_upto(cur, i, b1, player, cur.len() as int);
    let t = modifier_m(st, b1);
    cur.update(i, modify_direction_m(b1, t, PEER_PRESSURE_FACTOR as int))
}

/// The whole per-tick pass: agents are updated in index order, each one
/// seeing the already-updated states of agents before it.
pub open spec fn flock_pass(birds: Seq<BirdM>, player: BirdM, w: int, h: int, k: int) -> Seq<
    BirdM,
>
    decreases k,
{
    if k <= 0 {
        birds
    } else {
        flock_one(flock_pass(birds, player, w, h, k - 1), k - 1, player, w, h)
    }
}

/// The models of a sequence of agents.
pub open spec fn models(s: Seq<Bird>) -> Seq<BirdM> {
    s.map_values(|b: Bird| b.m())
}

/// The fixed-point machine limits agent `k`'s step must respect: its
/// pre-advance position is off the plane by less than one plane
/// dimension, and the steering it receives stays within the
/// representable speed range.
pub open spec fn step_ok(birds0: Seq<BirdM>, player: BirdM, w: int, h: int, k: int) -> bool {
    let birds = flock_pass(birds0, player, w, h, k);
    let b = birds[k];
    let b1 = advance_m(b, w, h);
    let cur = birds.update(k, b1);
    let st = scan_upto(cur, k, b1, player, cur.len() as int);
    let t = modifier_m(st, b1);
    &&& -w <= b.pos.0 + b.dir.0 < 2 * w
    &&& -h <= b.pos.1 + b.dir.1 < 2 * h
    &&& abs_val(t.0) <= SPEED_CAP
    &&& abs_val(t.1) <= SPEED_CAP
    &&& crate::bird::lerp_speed_m(b1, t, PEER_PRESSURE_FACTOR as int) <= SPEED_CAP
}

proof fn lemma_models_update(s: Seq<Bird>, i: int, b: Bird)
    requires
        0 <= i < s.len(),
    ensures
        models(s.update(i, b)) == models(s).update(i, b.m()),
{
    assert_seqs_equal!(models(s.update(i, b)) == models(s).update(i, b.m()));
}

/// Advance every autonomous agent one tick and steer it toward its
/// neighbours, exactly as `flock_pass` describes: each agent moves
/// first, scans the player and every other agent (already-updated ones
/// included) from its new position, and blends alignment, separation
/// and cohesion into its heading with the fixed blend weight.  An agent
/// with no visible neighbour receives no alignment or cohesion
/// contribution.
#[verifier::loop_isolation(false)]
pub fn control_bot_birds(
    bot_birds: &mut Vec<Bird>,
    player_bird: &Bird,
    map_width: i64,
    map_height: i64,
)
    requires
        0 < map_width <= COORD_CAP,
        0 < map_height <= COORD_CAP,
        player_bird.wf(),
        old(bot_birds)@.len() <= 1_000_000,
        forall|j: int| 0 <= j < old(bot_birds)@.len() ==> (#[trigger] old(bot_birds)@[j]).wf(),
        forall|k: int|
            0 <= k < old(bot_birds)@.len() ==> #[trigger] step_ok(
                models(old(bot_birds)@),
                player_bird.m(),
                map_width as int,
                map_height as int,
                k,
            ),
    ensures
        final(bot_birds)@.len() == old(bot_birds)@.len(),
        models(final(bot_birds)@) == flock_pass(
            models(old(bot_birds)@),
            player_bird.m(),
            map_width as int,
            map_height as int,
            old(bot_birds)@.len() as int,
        ),
        forall|j: int| 0 <= j < final(bot_birds)@.len() ==> (#[trigger] final(bot_birds)@[j]).wf(),
{
    let ghost m0 = models(old(bot_birds)@);
    let ghost pm = player_bird.m();
    let ghost w = map_width as int;
    let ghost h = map_height as int;
    let len = bot_birds.len();
    let mut i: usize = 0;
    while i < len
        invariant
            i <= len,
            bot_birds@.len() == len,
            models(bot_birds@) == flock_pass(m0, pm, w, h, i as int),
            forall|j: int| 0 <= j < len ==> (#[trigger] bot_birds@[j]).wf(),
        decreases len - i,
    {
        let ghost cur0 = models(bot_birds@);
        proof {
            assert(cur0[i as int] == bot_birds@[i as int].m());
            assert(step_ok(m0, pm, w, h, i as int));
        }
        let mut b = bot_birds[i];
        b.advance_toroid(map_width, map_height);
        let ghost b1 = b.m();
        proof {
            assert(b1 == advance_m(cur0[i as int], w, h));
        }
        let ghost sprev = bot_birds@;
        bot_birds.set(i, b);
        let ghost cur1 = cur0.update(i as int, b1);
        proof {
            lemma_models_update(sprev, i as int, b);
            assert(models(bot_birds@) == cur1);
        }
        let current_bird = b;
        let mut other_birds_direction = Vec2 { x: 0, y: 0 };
        let mut other_birds_count: i64 = 0;
        let mut position_accumulator = PositionAccumulator::new();
        if current_bird.can_see(player_bird) {
            other_birds_count = other_birds_count + 1;
            other_birds_direction = Vec2 {
                x: other_birds_direction.x + player_bird.dir.x,
                y: other_birds_direction.y + player_bird.dir.y,
            };
            position_accumulator.add_position(player_bird.get_pos());
        }
        let mut closest_bird_pos = player_bird.get_pos();
        let mut closest_bird_distance_squared = player_bird.squared_distance_to(&current_bird);
        let ghost st0 = scan_init(b1, pm);
        proof {
            assert(other_birds_count as int == st0.count);
        }
        let mut j: usize = 0;
        while j < len
            invariant
                j <= len,
                bot_birds@.len() == len,
                models(bot_birds@) == cur1,
                forall|jj: int| 0 <= jj < len ==> (#[trigger] bot_birds@[jj]).wf(),
                (other_birds_direction.x as int, other_birds_direction.y as int) == scan_upto(
                    cur1,
                    i as int,
                    b1,
                    pm,
                    j as int,
                ).dir_sum,
                (
                    position_accumulator.added_positions.x as int,
                    position_accumulator.added_positions.y as int,
                ) == scan_upto(cur1, i as int, b1, pm, j as int).pos_sum,
                other_birds_count as int == scan_upto(cur1, i as int, b1, pm, j as int).count,
                position_accumulator.position_count == other_birds_count,
                (closest_bird_pos.x as int, closest_bird_pos.y as int) == scan_upto(
                    cur1,
                    i as int,
                    b1,
                    pm,
                    j as int,
                ).closest_pos,
                closest_bird_distance_squared as int == scan_upto(
                    cur1,
                    i as int,
                    b1,
                    pm,
                    j as int,
                ).closest_d2,
                0 <= other_birds_count <= j + 1,
                abs_val(other_birds_direction.x as int) <= other_birds_count * SPEED_CAP,
                abs_val(other_birds_direction.y as int) <= other_birds_count * SPEED_CAP,
                abs_val(position_accumulator.added_positions.x as int) <= other_birds_count
                    * COORD_CAP,
                abs_val(position_accumulator.added_positions.y as int) <= other_birds_count
                    * COORD_CAP,
                abs_val(closest_bird_pos.x as int) <= COORD_CAP,
                abs_val(closest_bird_pos.y as int) <= COORD_CAP,
                closest_bird_distance_squared >= 0,
            decreases len - j,
        {
            if j != i {
                let other_bird = bot_birds[j];
                proof {
                    assert(other_bird.m() == cur1[j as int]);
                }
                if current_bird.can_see(&other_bird) {
                    other_birds_count = other_birds_count + 1;
                    other_birds_direction = Vec2 {
                        x: other_birds_direction.x + other_bird.dir.x,
                        y: other_birds_direction.y + other_bird.dir.y,
                    };
                    position_accumulator.add_position(other_bird.get_pos());
                }
                let distance = current_bird.squared_distance_to(&other_bird);
                if distance < closest_bird_distance_squared {
                    closest_bird_distance_squared = distance;
                    closest_bird_pos = other_bird.get_pos();
                }
            }
            j = j + 1;
        }
        let ghost st = scan_upto(cur1, i as int, b1, pm, len as int);
        let alignment = if other_birds_count > 0 {
            proof {
                lemma_div_trunc_bound(
                    other_birds_direction.x as int,
                    other_birds_count as int,
                    SPEED_CAP as int,
                );
                lemma_div_trunc_bound(
                    other_birds_direction.y as int,
                    other_birds_count as int,
                    SPEED_CAP as int,
                );
            }
            Vec2 {
                x: other_birds_direction.x / other_birds_count,
                y: other_birds_direction.y / other_birds_count,
            }
        } else {
            Vec2 { x: 0, y: 0 }
        };
        let separation = separation_force(
            current_bird.get_pos(),
            closest_bird_pos,
            closest_bird_distance_squared,
        );
        let cohesion = if other_birds_count > 0 {
            proof {
                lemma_div_trunc_bound(
                    position_accumulator.added_positions.x as int,
                    other_birds_count as int,
                    COORD_CAP as int,
                );
                lemma_div_trunc_bound(
                    position_accumulator.added_positions.y as int,
                    other_birds_count as int,
                    COORD_CAP as int,
                );
            }
            cohesion_force(current_bird.get_pos(), position_accumulator.get_average())
        } else {
            Vec2 { x: 0, y: 0 }
        };
        let direction_modifier = Vec2 {
            x: alignment.x + separation.x + cohesion.x,
            y: alignment.y + separation.y + cohesion.y,
        };
        proof {
            assert((direction_modifier.x as int, direction_modifier.y as int) == modifier_m(
                st,
                b1,
            ));
        }
        let mut b2 = bot_birds[i];
        proof {
            assert(b2.m() == b1);
        }
        b2.modify_direction(direction_modifier, PEER_PRESSURE_FACTOR);
        let ghost sprev2 = bot_birds@;
        bot_birds.set(i, b2);
        proof {
            lemma_models_update(sprev2, i as int, b2);
            assert(models(bot_birds@) == cur1.update(i as int, b2.m()));
            assert(models(bot_birds@) == flock_one(cur0, i as int, pm, w, h));
            assert(models(bot_birds@) == flock_pass(m0, pm, w, h, i as int + 1));
        }
        i = i + 1;
    }
}

} // verus!
