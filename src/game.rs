use vstd::prelude::*;

use rand::Rng;

use crate::config::{
    BULLET_COLOR, BULLET_SIZE, ENEMY_COLOR, ENEMY_SIZE, HEIGHT, MAX_ENEMIES, MOVE_STEP,
    SPAWN_PERCENT, SQUARE_COLOR, TRIG_SCALE, UNIT, WIDTH,
};
use crate::entity::{clamp, in_frame, outside, pos_ok, Bullet, Enemy, Square};
use crate::geometry::{collides, div_toward_zero, div_trunc, is_collision};
use crate::raster::{covered, draw_bullet, draw_enemy, draw_square, frame_len, in_square};

verus! {

/// Relies on rand::thread_rng and rand::Rng::gen_range: a value drawn from
/// `[0, n)`; gen_range panics on an empty range, which `n > 0` rules out.
#[verifier::external_body]
fn random_below(n: u32) -> (r: u32)
    requires
        n > 0,
    ensures
        r < n,
{
    rand::thread_rng().gen_range(0..n)
}

/// What the player does in one frame: the movement and turning keys held,
/// and whether the fire button is down, aimed at `(aim_x, aim_y)`.
pub struct FrameInput {
    pub up: bool,
    pub left: bool,
    pub down: bool,
    pub right: bool,
    pub turn_left: bool,
    pub turn_right: bool,
    pub fire: bool,
    /// Aim point, in sub-pixel steps.
    pub aim_x: i64,
    pub aim_y: i64,
}

/// Net step of one axis: `MOVE_STEP` for each held key, negative for `neg`.
pub open spec fn axis_step(neg: bool, pos: bool) -> int {
    (if pos { MOVE_STEP as int } else { 0 }) - (if neg { MOVE_STEP as int } else { 0 })
}

/// The angle after a turn to the left.
pub open spec fn turned_left(a: i64) -> i64 {
    if a > i64::MIN { (a - 1) as i64 } else { a }
}

/// The angle after a turn to the right.
pub open spec fn turned_right(a: i64) -> i64 {
    if a < i64::MAX { (a + 1) as i64 } else { a }
}

/// Index of the first target of `es`, from index `k` on, that the projectile
/// `b` strikes; -1 when there is none.
pub open spec fn first_hit(b: Bullet, es: Seq<Enemy>, k: int) -> int
    decreases es.len() - k,
{
    if 0 <= k < es.len() {
        if collides(b.x as int, b.y as int, es[k].x as int, es[k].y as int) {
            k
        } else {
            first_hit(b, es, k + 1)
        }
    } else {
        -1
    }
}

/// The projectiles and targets left after a frame in which the projectiles
/// `bs` advance and are resolved in order against the targets `es`: a
/// projectile that leaves the display is dropped; one that strikes a target
/// is dropped together with the first target it strikes; the others stay.
pub open spec fn resolve(bs: Seq<Bullet>, es: Seq<Enemy>) -> (Seq<Bullet>, Seq<Enemy>)
    decreases bs.len(),
{
    if bs.len() == 0 {
        (Seq::empty(), es)
    } else {
        let (kept, left) = resolve(bs.drop_last(), es);
        let b = bs.last().advanced();
        if outside(b.x as int, b.y as int) {
            (kept, left)
        } else {
            let k = first_hit(b, left, 0);
            if k >= 0 {
                (kept, left.remove(k))
            } else {
                (kept.push(b), left)
            }
        }
    }
}

/// The targets after a spawn check that rolled `roll` (out of 100) and chose
/// the pixel `(px, py)`: a target there is added when the roll is below
/// `SPAWN_PERCENT` and fewer than `MAX_ENEMIES` are alive.
pub open spec fn spawned(es: Seq<Enemy>, roll: int, px: int, py: int) -> Seq<Enemy> {
    if roll < SPAWN_PERCENT && es.len() < MAX_ENEMIES {
        es.push(Enemy { x: (px * UNIT) as i64, y: (py * UNIT) as i64 })
    } else {
        es
    }
}

/// The targets after the spawn checks `attempts`, in order, each a roll and
/// a pixel.
pub open spec fn spawned_all(es: Seq<Enemy>, attempts: Seq<(int, int, int)>) -> Seq<Enemy>
    decreases attempts.len(),
{
    if attempts.len() == 0 {
        es
    } else {
        let a = attempts.last();
        spawned(spawned_all(es, attempts.drop_last()), a.0, a.1, a.2)
    }
}

/// However many spawn checks run, and whatever they roll, no more than
/// `MAX_ENEMIES` targets are ever alive.
pub proof fn lemma_spawns_never_exceed_limit(es: Seq<Enemy>, attempts: Seq<(int, int, int)>)
    requires
        es.len() <= MAX_ENEMIES,
    ensures
        spawned_all(es, attempts).len() <= MAX_ENEMIES,
    decreases attempts.len(),
{
    if attempts.len() > 0 {
        lemma_spawns_never_exceed_limit(es, attempts.drop_last());
    }
}

/// Largest size of a pixel coordinate handed to the drawing, in pixels;
/// anything that far away is off the display either way.
pub const PIXEL_LIMIT: i64 = 1_000_000;

/// The pixel that a coordinate in sub-pixel steps is drawn at: its whole
/// number of pixels, rounded toward zero, held to `PIXEL_LIMIT` in size.
pub open spec fn pixel_of(v: i64) -> int {
    clamp(div_trunc(v as int, UNIT as int), -PIXEL_LIMIT as int, PIXEL_LIMIT as int)
}

/// The pixel that a coordinate in sub-pixel steps is drawn at.
fn to_pixel(v: i64) -> (r: i32)
    requires
        v > i64::MIN,
    ensures
        r == pixel_of(v),
{
    let p = div_toward_zero(v, UNIT);
    if p < -PIXEL_LIMIT {
        -PIXEL_LIMIT as i32
    } else if p > PIXEL_LIMIT {
        PIXEL_LIMIT as i32
    } else {
        p as i32
    }
}

/// Centre pixels of the projectiles.
pub open spec fn bullet_centres(bs: Seq<Bullet>) -> Seq<(int, int)> {
    bs.map_values(|b: Bullet| (pixel_of(b.x), pixel_of(b.y)))
}

/// Centre pixels of the targets.
pub open spec fn enemy_centres(es: Seq<Enemy>) -> Seq<(int, int)> {
    es.map_values(|e: Enemy| (pixel_of(e.x), pixel_of(e.y)))
}

/// Whether the pixel at `idx` lies in one of the squares of side `2 * half`
/// centred on the pixels `cs`.
pub open spec fn any_covers(idx: int, cs: Seq<(int, int)>, half: int) -> bool {
    exists|k: int| 0 <= k < cs.len() && #[trigger] in_square(idx, cs[k].0, cs[k].1, half)
}

/// Colour of the pixel at `idx` in the picture of a frame: black, under the
/// player (drawn turned by `(c, s)`), under the projectiles, under the
/// targets, each drawn over what came before.
pub open spec fn frame_pixel(
    sq: Square,
    bs: Seq<Bullet>,
    es: Seq<Enemy>,
    idx: int,
    c: int,
    s: int,
) -> u32 {
    if any_covers(idx, enemy_centres(es), ENEMY_SIZE / 2) {
        ENEMY_COLOR
    } else if any_covers(idx, bullet_centres(bs), BULLET_SIZE / 2) {
        BULLET_COLOR
    } else if covered(idx, pixel_of(sq.x), pixel_of(sq.y), c, s) {
        SQUARE_COLOR
    } else {
        0
    }
}

/// One more square covers exactly the pixels of the last square too.
proof fn lemma_any_covers_push(idx: int, cs: Seq<(int, int)>, p: (int, int), half: int)
    ensures
        any_covers(idx, cs.push(p), half) == (any_covers(idx, cs, half) || in_square(
            idx,
            p.0,
            p.1,
            half,
        )),
{
    let ps = cs.push(p);
    if any_covers(idx, ps, half) {
        let k = choose|k: int| 0 <= k < ps.len() && #[trigger] in_square(idx, ps[k].0, ps[k].1, half);
        if k < cs.len() {
            assert(ps[k] == cs[k]);
            assert(in_square(idx, cs[k].0, cs[k].1, half));
        }
    }
    if any_covers(idx, cs, half) {
        let k = choose|k: int| 0 <= k < cs.len() && #[trigger] in_square(idx, cs[k].0, cs[k].1, half);
        assert(ps[k] == cs[k]);
        assert(in_square(idx, ps[k].0, ps[k].1, half));
    }
    if in_square(idx, p.0, p.1, half) {
        assert(ps[cs.len() as int] == p);
        assert(in_square(idx, ps[cs.len() as int].0, ps[cs.len() as int].1, half));
    }
}

/// Everything that changes from frame to frame.
pub struct GameState {
    pub square: Square,
    pub bullets: Vec<Bullet>,
    pub enemies: Vec<Enemy>,
}

impl GameState {
    /// The player and the projectiles are well formed, the targets are in
    /// the display area, and at most `MAX_ENEMIES` targets live.
    pub open spec fn wf(&self) -> bool {
        &&& self.square.wf()
        &&& self.enemies@.len() <= MAX_ENEMIES
        &&& forall|k: int|
            0 <= k < self.enemies@.len() ==> in_frame(
                #[trigger] self.enemies@[k].x as int,
                self.enemies@[k].y as int,
            )
        &&& forall|k: int| 0 <= k < self.bullets@.len() ==> #[trigger] self.bullets@[k].wf()
    }

    /// The first frame: the player in the middle of the display, no
    /// projectiles and no targets.
    pub fn new() -> (r: GameState)
        ensures
            r.wf(),
            r.square.x == WIDTH * UNIT / 2,
            r.square.y == HEIGHT * UNIT / 2,
            r.square.angle == 0,
            r.bullets@.len() == 0,
            r.enemies@.len() == 0,
    {
        GameState {
            square: Square::new(WIDTH as i64 * UNIT / 2, HEIGHT as i64 * UNIT / 2),
            bullets: Vec::new(),
            enemies: Vec::new(),
        }
    }

    /// Applies the player's input: moves by `MOVE_STEP` per held key, turns
    /// left then right by a step per held key,
    /// and, when firing, adds a projectile aimed at the aim point.
    pub fn apply_input(&mut self, input: &FrameInput)
        requires
            old(self).wf(),
            in_frame(input.aim_x as int, input.aim_y as int),
            pos_ok(old(self).square.x + axis_step(input.left, input.right)),
            pos_ok(old(self).square.y + axis_step(input.up, input.down)),
        ensures
            final(self).wf(),
            final(self).square.x == old(self).square.x + axis_step(input.left, input.right),
            final(self).square.y == old(self).square.y + axis_step(input.up, input.down),
            final(self).square.angle == {
                let a = if input.turn_left {
                    turned_left(old(self).square.angle)
                } else {
                    old(self).square.angle
                };
                if input.turn_right {
                    turned_right(a)
                } else {
                    a
                }
            },
            final(self).enemies@ == old(self).enemies@,
            !input.fire ==> final(self).bullets@ == old(self).bullets@,
            input.fire ==> final(self).bullets@.len() == old(self).bullets@.len() + 1
                && final(self).bullets@.drop_last() == old(self).bullets@
                && final(self).bullets@.last().aimed_from(
                final(self).square.x as int,
                final(self).square.y as int,
                input.aim_x as int,
                input.aim_y as int,
            ),
    {
        let mut dx: i64 = 0;
        let mut dy: i64 = 0;
        if input.up {
            dy = dy - MOVE_STEP;
        }
        if input.left {
            dx = dx - MOVE_STEP;
        }
        if input.down {
            dy = dy + MOVE_STEP;
        }
        if input.right {
            dx = dx + MOVE_STEP;
        }
        self.square.move_by(dx, dy);
        if input.turn_left {
            self.square.rotate_left();
        }
        if input.turn_right {
            self.square.rotate_right();
        }
        if input.fire {
            let b = self.square.fire_bullet(input.aim_x, input.aim_y);
            self.bullets.push(b);
            proof {
                assert(self.bullets@.drop_last() =~= old(self).bullets@);
            }
        }
    }

    /// One frame of the game before drawing: the player's input, then the
    /// spawn check, then the projectiles' advance, collisions and pruning.
    pub fn step(&mut self, input: &FrameInput)
        requires
            old(self).wf(),
            in_frame(input.aim_x as int, input.aim_y as int),
            pos_ok(old(self).square.x + axis_step(input.left, input.right)),
            pos_ok(old(self).square.y + axis_step(input.up, input.down)),
        ensures
            final(self).wf(),
            final(self).square.x == old(self).square.x + axis_step(input.left, input.right),
            final(self).square.y == old(self).square.y + axis_step(input.up, input.down),
            final(self).square.angle == {
                let a = if input.turn_left {
                    turned_left(old(self).square.angle)
                } else {
                    old(self).square.angle
                };
                if input.turn_right {
                    turned_right(a)
                } else {
                    a
                }
            },
            exists|fired: Seq<Bullet>, roll: int, px: int, py: int|
                0 <= roll < 100 && 0 <= px < WIDTH && 0 <= py < HEIGHT && (!input.fire ==> fired
                    =~= Seq::<Bullet>::empty()) && (input.fire ==> fired.len() == 1
                    && fired[0].aimed_from(
                    final(self).square.x as int,
                    final(self).square.y as int,
                    input.aim_x as int,
                    input.aim_y as int,
                )) && (final(self).bullets@, final(self).enemies@) == #[trigger] resolve(
                    old(self).bullets@ + fired,
                    spawned(old(self).enemies@, roll, px, py),
                ),
    {
        self.apply_input(input);
        let ghost after_input = self.bullets@;
        let ghost fired = after_input.subrange(old(self).bullets@.len() as int, after_input.len() as int);
        proof {
            assert(old(self).bullets@ + fired =~= after_input);
        }
        self.try_spawn();
        let ghost after_spawn = self.enemies@;
        self.resolve_bullets();
        proof {
            let (roll, px, py) = choose|roll: int, px: int, py: int|
                0 <= roll < 100 && 0 <= px < WIDTH && 0 <= py < HEIGHT && after_spawn
                    == #[trigger] spawned(old(self).enemies@, roll, px, py);
            assert(0 <= roll < 100 && 0 <= px < WIDTH && 0 <= py < HEIGHT);
            if input.fire {
                assert(fired[0] == after_input.last());
            }
            assert((self.bullets@, self.enemies@) == resolve(
                old(self).bullets@ + fired,
                spawned(old(self).enemies@, roll, px, py),
            ));
        }
    }

    /// Index of the first target that the projectile `b` strikes, if any.
    fn find_hit(b: &Bullet, enemies: &Vec<Enemy>) -> (r: Option<usize>)
        requires
            in_frame(b.x as int, b.y as int),
            forall|k: int|
                0 <= k < enemies@.len() ==> in_frame(
                    #[trigger] enemies@[k].x as int,
                    enemies@[k].y as int,
                ),
        ensures
            match r {
                Some(k) => first_hit(*b, enemies@, 0) == k && k < enemies@.len(),
                None => first_hit(*b, enemies@, 0) == -1,
            },
    {
        let mut k: usize = 0;
        while k < enemies.len()
            invariant
                k <= enemies@.len(),
                in_frame(b.x as int, b.y as int),
                forall|m: int|
                    0 <= m < enemies@.len() ==> in_frame(
                        #[trigger] enemies@[m].x as int,
                        enemies@[m].y as int,
                    ),
                first_hit(*b, enemies@, 0) == first_hit(*b, enemies@, k as int),
            decreases enemies@.len() - k,
        {
            let e = &enemies[k];
            if is_collision(b.x, b.y, e.x, e.y) {
                return Some(k);
            }
            k = k + 1;
        }
        None
    }

    /// One frame of the projectiles: each advances by its velocity, then, in
    /// order, is dropped when it has left the display, or else is dropped
    /// together with the first target that it strikes; the others stay, in
    /// their order.
    pub fn resolve_bullets(&mut self)
        requires
            old(self).wf(),
        ensures
            final(self).wf(),
            final(self).square == old(self).square,
            (final(self).bullets@, final(self).enemies@) == resolve(
                old(self).bullets@,
                old(self).enemies@,
            ),
    {
        let ghost bs = self.bullets@;
        let ghost es = self.enemies@;
        let mut kept: Vec<Bullet> = Vec::new();
        let n = self.bullets.len();
        let mut i: usize = 0;
        proof {
            assert(bs.subrange(0, 0) =~= Seq::<Bullet>::empty());
        }
        while i < n
            invariant
                n == bs.len(),
                i <= n,
                self.bullets@ == bs,
                self.square == old(self).square,
                self.square.wf(),
                self.enemies@.len() <= MAX_ENEMIES,
                forall|k: int|
                    0 <= k < self.enemies@.len() ==> in_frame(
                        #[trigger] self.enemies@[k].x as int,
                        self.enemies@[k].y as int,
                    ),
                forall|k: int| 0 <= k < bs.len() ==> #[trigger] bs[k].wf(),
                forall|k: int| 0 <= k < kept@.len() ==> #[trigger] kept@[k].wf(),
                (kept@, self.enemies@) == resolve(bs.subrange(0, i as int), es),
            decreases n - i,
        {
            let mut b = self.bullets[i];
            proof {
                assert(bs[i as int].wf());
            }
            b.update();
            proof {
                assert(bs.subrange(0, i + 1).drop_last() =~= bs.subrange(0, i as int));
                assert(bs.subrange(0, i + 1).last() == bs[i as int]);
            }
            if !b.is_out_of_bounds() {
                match Self::find_hit(&b, &self.enemies) {
                    Some(k) => {
                        let ghost before = self.enemies@;
                        self.enemies.remove(k);
                        proof {
                            assert forall|m: int| 0 <= m < self.enemies@.len() implies in_frame(
                                #[trigger] self.enemies@[m].x as int,
                                self.enemies@[m].y as int,
                            ) by {
                                if m < k {
                                    assert(self.enemies@[m] == before[m]);
                                } else {
                                    assert(self.enemies@[m] == before[m + 1]);
                                }
                            }
                        }
                    },
                    None => {
                        kept.push(b);
                    },
                }
            }
            i = i + 1;
        }
        proof {
            assert(bs.subrange(0, n as int) =~= bs);
        }
        self.bullets = kept;
    }

    /// Draws the frame into `buffer`: black, then the player turned by the
    /// angle whose cosine and sine, times `TRIG_SCALE`, are `c` and `s`, then
    /// each projectile, then each target, each clipped to the buffer.
    pub fn render(&self, buffer: &mut [u32], c: i32, s: i32)
        requires
            self.wf(),
            old(buffer)@.len() == frame_len(),
            -TRIG_SCALE <= c <= TRIG_SCALE,
            -TRIG_SCALE <= s <= TRIG_SCALE,
        ensures
            final(buffer)@.len() == frame_len(),
            forall|idx: int|
                0 <= idx < frame_len() ==> #[trigger] final(buffer)@[idx] == frame_pixel(
                    self.square,
                    self.bullets@,
                    self.enemies@,
                    idx,
                    c as int,
                    s as int,
                ),
    {
        let mut p: usize = 0;
        while p < buffer.len()
            invariant
                p <= buffer@.len(),
                buffer@.len() == frame_len(),
                forall|idx: int| 0 <= idx < p ==> #[trigger] buffer@[idx] == 0,
            decreases buffer@.len() - p,
        {
            buffer[p] = 0;
            p = p + 1;
        }
        draw_square(buffer, to_pixel(self.square.x), to_pixel(self.square.y), c, s);
        let ghost after_square = buffer@;
        let ghost bc = bullet_centres(self.bullets@);
        let ghost ec = enemy_centres(self.enemies@);
        let mut k: usize = 0;
        while k < self.bullets.len()
            invariant
                k <= self.bullets@.len(),
                self.wf(),
                bc == bullet_centres(self.bullets@),
                buffer@.len() == frame_len(),
                after_square.len() == frame_len(),
                forall|idx: int|
                    0 <= idx < frame_len() ==> #[trigger] buffer@[idx] == if any_covers(
                        idx,
                        bc.take(k as int),
                        BULLET_SIZE / 2,
                    ) {
                        BULLET_COLOR
                    } else {
                        after_square[idx]
                    },
            decreases self.bullets@.len() - k,
        {
            let b = &self.bullets[k];
            proof {
                assert(self.bullets@[k as int].wf());
                assert(bc.take(k + 1) =~= bc.take(k as int).push(bc[k as int]));
                assert forall|idx: int| 0 <= idx < frame_len() implies #[trigger] any_covers(
                    idx,
                    bc.take(k + 1),
                    BULLET_SIZE / 2,
                ) == (any_covers(idx, bc.take(k as int), BULLET_SIZE / 2) || in_square(
                    idx,
                    pixel_of(b.x),
                    pixel_of(b.y),
                    BULLET_SIZE / 2,
                )) by {
                    lemma_any_covers_push(idx, bc.take(k as int), bc[k as int], BULLET_SIZE / 2);
                }
            }
            draw_bullet(buffer, to_pixel(b.x), to_pixel(b.y));
            k = k + 1;
        }
        proof {
            assert(bc.take(self.bullets@.len() as int) =~= bc);
        }
        let ghost after_bullets = buffer@;
        let mut k: usize = 0;
        while k < self.enemies.len()
            invariant
                k <= self.enemies@.len(),
                self.wf(),
                ec == enemy_centres(self.enemies@),
                buffer@.len() == frame_len(),
                after_bullets.len() == frame_len(),
                forall|idx: int|
                    0 <= idx < frame_len() ==> #[trigger] buffer@[idx] == if any_covers(
                        idx,
                        ec.take(k as int),
                        ENEMY_SIZE / 2,
                    ) {
                        ENEMY_COLOR
                    } else {
                        after_bullets[idx]
                    },
            decreases self.enemies@.len() - k,
        {
            let e = &self.enemies[k];
            proof {
                assert(in_frame(self.enemies@[k as int].x as int, self.enemies@[k as int].y as int));
                assert(ec.take(k + 1) =~= ec.take(k as int).push(ec[k as int]));
                assert forall|idx: int| 0 <= idx < frame_len() implies #[trigger] any_covers(
                    idx,
                    ec.take(k + 1),
                    ENEMY_SIZE / 2,
                ) == (any_covers(idx, ec.take(k as int), ENEMY_SIZE / 2) || in_square(
                    idx,
                    pixel_of(e.x),
                    pixel_of(e.y),
                    ENEMY_SIZE / 2,
                )) by {
                    lemma_any_covers_push(idx, ec.take(k as int), ec[k as int], ENEMY_SIZE / 2);
                }
            }
            draw_enemy(buffer, to_pixel(e.x), to_pixel(e.y));
            k = k + 1;
        }
        proof {
            assert(ec.take(self.enemies@.len() as int) =~= ec);
        }
    }

    /// The spawn check of a frame, given its roll (out of 100) and the pixel
    /// `(px, py)` chosen for a new target.
    pub fn spawn_step(&mut self, roll: u32, px: u32, py: u32)
        requires
            old(self).wf(),
            px < WIDTH,
            py < HEIGHT,
        ensures
            final(self).wf(),
            final(self).enemies@ == spawned(old(self).enemies@, roll as int, px as int, py as int),
            final(self).square == old(self).square,
            final(self).bullets@ == old(self).bullets@,
    {
        if roll < SPAWN_PERCENT && self.enemies.len() < MAX_ENEMIES {
            self.enemies.push(Enemy::new(px as i64 * UNIT, py as i64 * UNIT));
        }
    }

    /// The spawn check of a frame, with a random roll and a random pixel of
    /// the display: at most one target is added, never past `MAX_ENEMIES`.
    pub fn try_spawn(&mut self)
        requires
            old(self).wf(),
        ensures
            final(self).wf(),
            final(self).square == old(self).square,
            final(self).bullets@ == old(self).bullets@,
            exists|roll: int, px: int, py: int|
                0 <= roll < 100 && 0 <= px < WIDTH && 0 <= py < HEIGHT && final(self).enemies@
                    == #[trigger] spawned(old(self).enemies@, roll, px, py),
    {
        let roll = random_below(100);
        if roll < SPAWN_PERCENT && self.enemies.len() < MAX_ENEMIES {
            let px = random_below(WIDTH as u32);
            let py = random_below(HEIGHT as u32);
            self.spawn_step(roll, px, py);
            assert(self.enemies@ == spawned(old(self).enemies@, roll as int, px as int, py as int));
        } else {
            assert(self.enemies@ == spawned(old(self).enemies@, roll as int, 0, 0));
        }
    }
}

} // verus!
