use square_shooter::config::{
    BULLET_COLOR, ENEMY_COLOR, HEIGHT, MAX_ENEMIES, SQUARE_COLOR, TRIG_SCALE, UNIT, WIDTH,
};
use square_shooter::entity::{Bullet, Enemy, Square};
use square_shooter::game::{FrameInput, GameState};
use square_shooter::geometry::{is_collision, isqrt};
use square_shooter::raster::{draw_bullet, draw_enemy, draw_square};

fn px(v: i64) -> i64 {
    v * UNIT
}

fn no_input() -> FrameInput {
    FrameInput {
        up: false,
        left: false,
        down: false,
        right: false,
        turn_left: false,
        turn_right: false,
        fire: false,
        aim_x: 0,
        aim_y: 0,
    }
}

#[test]
fn fire_right_from_centre_has_speed_five() {
    let sq = Square::new(px(400), px(300));
    let b = sq.fire_bullet(px(500), px(300));
    assert_eq!((b.x, b.y), (px(400), px(300)));
    assert_eq!((b.velocity_x, b.velocity_y), (5_000_000, 0));
}

#[test]
fn fire_in_other_directions() {
    let sq = Square::new(px(400), px(300));
    let up = sq.fire_bullet(px(400), 0);
    assert_eq!((up.velocity_x, up.velocity_y), (0, -5_000_000));
    let left = sq.fire_bullet(px(10), px(300));
    assert_eq!((left.velocity_x, left.velocity_y), (-5_000_000, 0));
    // a 3-4-5 triangle: exact parts of three and four pixels
    let diag = sq.fire_bullet(px(430), px(340));
    assert_eq!((diag.velocity_x, diag.velocity_y), (3_000_000, 4_000_000));
}

/// Each part of the velocity within a ten-thousandth of a pixel (100 steps)
/// of the exact aimed value, and the speed within as much of five pixels.
fn assert_aim_close(sq: &Square, tx: i64, ty: i64) {
    let b = sq.fire_bullet(tx, ty);
    let (dx, dy) = ((tx - sq.x) as f64, (ty - sq.y) as f64);
    let len = (dx * dx + dy * dy).sqrt();
    let (ex, ey) = (5_000_000.0 * dx / len, 5_000_000.0 * dy / len);
    let (vx, vy) = (b.velocity_x as f64, b.velocity_y as f64);
    assert!((vx - ex).abs() <= 100.0, "{} {} -> {} vs {}", tx, ty, vx, ex);
    assert!((vy - ey).abs() <= 100.0, "{} {} -> {} vs {}", tx, ty, vy, ey);
    assert!(((vx * vx + vy * vy).sqrt() - 5_000_000.0).abs() <= 100.0);
}

#[test]
fn fire_speed_is_close_to_five_pixels() {
    let sq = Square::new(px(123), px(456));
    let far = [(0i64, 0i64), (799_999_999, 1), (124_000_000, 456_000_001), (600_000_000, 0)];
    for &(tx, ty) in &far {
        assert_aim_close(&sq, tx, ty);
    }
    assert_aim_close(&sq, 5, 599_000_000);
    // aims one or two sub-pixel steps away
    assert_aim_close(&sq, sq.x + 1, sq.y + 1);
    assert_aim_close(&sq, sq.x + 1, sq.y + 2);
    assert_aim_close(&sq, sq.x + 2, sq.y + 4);
    assert_aim_close(&sq, sq.x - 1, sq.y);
}

#[test]
fn fire_at_forty_five_degrees() {
    let sq = Square::new(px(400), px(300));
    let b = sq.fire_bullet(px(500), px(400));
    // five pixels over the square root of two: 3.5355339 pixels
    assert!((b.velocity_x - 3_535_534).abs() <= 100);
    assert!((b.velocity_y - 3_535_534).abs() <= 100);
    assert_aim_close(&sq, px(500), px(400));
}

#[test]
fn aim_distance_does_not_change_velocity() {
    let sq = Square::new(px(400), px(300));
    let near = sq.fire_bullet(sq.x + 1, sq.y + 2);
    let far = sq.fire_bullet(sq.x + 2, sq.y + 4);
    let farther = sq.fire_bullet(sq.x + 100_000, sq.y + 200_000);
    assert!((near.velocity_x - far.velocity_x).abs() <= 100);
    assert!((near.velocity_y - far.velocity_y).abs() <= 100);
    assert!((near.velocity_x - farther.velocity_x).abs() <= 100);
    assert!((near.velocity_y - farther.velocity_y).abs() <= 100);
}

#[test]
fn fire_at_own_position_goes_right() {
    let sq = Square::new(px(50), px(60));
    let b = sq.fire_bullet(px(50), px(60));
    assert_eq!((b.velocity_x, b.velocity_y), (5_000_000, 0));
}

#[test]
fn update_adds_velocity_exactly() {
    let mut b = Bullet::new(1234, -77, 5000, -3);
    b.update();
    assert_eq!((b.x, b.y, b.velocity_x, b.velocity_y), (6234, -80, 5000, -3));
}

#[test]
fn bullet_past_right_edge_is_out_of_bounds() {
    let mut b = Bullet::new(799_900_000, px(300), 5_000_000, 0);
    assert!(!b.is_out_of_bounds());
    b.update();
    assert_eq!((b.x, b.y), (804_900_000, px(300)));
    assert!(b.is_out_of_bounds());
}

#[test]
fn bounds_are_half_open() {
    assert!(!Bullet::new(0, 0, 0, 0).is_out_of_bounds());
    assert!(Bullet::new(px(800), 0, 0, 0).is_out_of_bounds());
    assert!(Bullet::new(0, px(600), 0, 0).is_out_of_bounds());
    assert!(Bullet::new(-1, 10, 0, 0).is_out_of_bounds());
    assert!(Bullet::new(10, -1, 0, 0).is_out_of_bounds());
    assert!(!Bullet::new(px(800) - 1, px(600) - 1, 0, 0).is_out_of_bounds());
}

#[test]
fn collision_radius_is_strict() {
    assert!(is_collision(px(100), px(100), px(100), px(100)));
    assert!(!is_collision(0, 0, 20_000_000, 0));
    assert!(!is_collision(0, 0, 0, -20_000_000));
    assert!(is_collision(0, 0, 19_999_999, 0));
    assert!(!is_collision(0, 0, 14_142_136, 14_142_136));
    assert!(is_collision(0, 0, 14_142_135, 14_142_135));
}

#[test]
fn isqrt_is_the_floor() {
    assert_eq!(isqrt(0), 0);
    assert_eq!(isqrt(1), 1);
    assert_eq!(isqrt(15), 3);
    assert_eq!(isqrt(16), 4);
    assert_eq!(isqrt(u64::MAX as u128), 4_294_967_295);
    assert_eq!(isqrt(u128::MAX), u64::MAX as u128);
}

#[test]
fn hit_removes_projectile_and_target() {
    let mut g = GameState::new();
    g.enemies.push(Enemy::new(px(100), px(100)));
    g.bullets.push(Bullet::new(px(95), px(100), 5_000_000, 0));
    g.bullets.push(Bullet::new(px(300), px(300), 0, 5_000_000));
    g.resolve_bullets();
    assert_eq!(g.enemies.len(), 0);
    assert_eq!(g.bullets.len(), 1);
    assert_eq!((g.bullets[0].x, g.bullets[0].y), (px(300), px(305)));
}

#[test]
fn one_projectile_strikes_only_the_first_target() {
    let mut g = GameState::new();
    g.enemies.push(Enemy::new(px(500), px(500)));
    g.enemies.push(Enemy::new(px(100), px(100)));
    g.enemies.push(Enemy::new(px(101), px(100)));
    g.bullets.push(Bullet::new(px(100), px(100), 0, 0));
    g.resolve_bullets();
    assert_eq!(g.bullets.len(), 0);
    assert_eq!(g.enemies.len(), 2);
    assert_eq!((g.enemies[0].x, g.enemies[1].x), (px(500), px(101)));
}

#[test]
fn later_projectile_sees_updated_targets() {
    let mut g = GameState::new();
    g.enemies.push(Enemy::new(px(100), px(100)));
    g.bullets.push(Bullet::new(px(100), px(100), 0, 0));
    g.bullets.push(Bullet::new(px(101), px(100), 0, 0));
    g.resolve_bullets();
    assert_eq!(g.enemies.len(), 0);
    assert_eq!(g.bullets.len(), 1);
    assert_eq!(g.bullets[0].x, px(101));
}

#[test]
fn leaving_projectiles_are_pruned_in_order() {
    let mut g = GameState::new();
    g.bullets.push(Bullet::new(px(1), px(10), -5_000_000, 0));
    g.bullets.push(Bullet::new(px(10), px(10), 1, 0));
    g.bullets.push(Bullet::new(px(10), px(598), 0, 5_000_000));
    g.bullets.push(Bullet::new(px(20), px(10), 0, 2));
    g.resolve_bullets();
    assert_eq!(g.bullets.len(), 2);
    assert_eq!((g.bullets[0].x, g.bullets[1].y), (px(10) + 1, px(10) + 2));
}

#[test]
fn spawn_never_exceeds_the_limit() {
    let mut g = GameState::new();
    for k in 0..50u32 {
        g.spawn_step(0, k, k);
        assert!(g.enemies.len() <= MAX_ENEMIES);
    }
    assert_eq!(g.enemies.len(), MAX_ENEMIES);
    assert_eq!((g.enemies[3].x, g.enemies[3].y), (px(3), px(3)));
}

#[test]
fn spawn_needs_a_low_roll() {
    let mut g = GameState::new();
    g.spawn_step(5, 1, 2);
    assert_eq!(g.enemies.len(), 0);
    g.spawn_step(4, 1, 2);
    assert_eq!(g.enemies.len(), 1);
    assert_eq!((g.enemies[0].x, g.enemies[0].y), (px(1), px(2)));
}

#[test]
fn random_spawns_stay_bounded_and_on_screen() {
    let mut g = GameState::new();
    for _ in 0..5000 {
        g.try_spawn();
        assert!(g.enemies.len() <= MAX_ENEMIES);
    }
    assert_eq!(g.enemies.len(), MAX_ENEMIES);
    for e in g.enemies.iter() {
        assert!(e.x >= 0 && e.x < px(WIDTH as i64) && e.x % UNIT == 0);
        assert!(e.y >= 0 && e.y < px(HEIGHT as i64) && e.y % UNIT == 0);
    }
}

#[test]
fn input_moves_turns_and_fires() {
    let mut g = GameState::new();
    let mut input = no_input();
    input.up = true;
    input.right = true;
    input.turn_left = true;
    g.apply_input(&input);
    assert_eq!((g.square.x, g.square.y, g.square.angle), (px(401), px(299), -1));
    input = no_input();
    input.left = true;
    input.right = true;
    input.turn_left = true;
    input.turn_right = true;
    input.fire = true;
    input.aim_x = px(401);
    input.aim_y = px(399);
    g.apply_input(&input);
    assert_eq!((g.square.x, g.square.y, g.square.angle), (px(401), px(299), -1));
    assert_eq!(g.bullets.len(), 1);
    assert_eq!((g.bullets[0].x, g.bullets[0].y), (px(401), px(299)));
    assert_eq!((g.bullets[0].velocity_x, g.bullets[0].velocity_y), (0, 5_000_000));
}

#[test]
fn player_is_created_and_moved_exactly() {
    let mut sq = Square::new(-5, px(900));
    assert_eq!((sq.x, sq.y, sq.angle), (-5, px(900), 0));
    sq.move_by(-px(1), px(1));
    assert_eq!((sq.x, sq.y), (-5 - px(1), px(901)));
    sq.move_by(px(2), -px(1));
    assert_eq!((sq.x, sq.y), (px(1) - 5, px(900)));
}

#[test]
fn player_walks_off_the_display() {
    let mut g = GameState::new();
    g.square = Square::new(px(799), px(300));
    let mut input = no_input();
    input.right = true;
    for _ in 0..5 {
        g.apply_input(&input);
    }
    assert_eq!((g.square.x, g.square.y), (px(804), px(300)));
}

#[test]
fn projectile_fired_off_display_is_pruned() {
    let mut g = GameState::new();
    for _ in 0..MAX_ENEMIES {
        g.enemies.push(Enemy::new(px(10), px(10)));
    }
    g.square = Square::new(px(900), px(300));
    let mut input = no_input();
    input.fire = true;
    input.aim_x = px(100);
    input.aim_y = px(300);
    g.apply_input(&input);
    assert_eq!(g.bullets.len(), 1);
    assert_eq!((g.bullets[0].velocity_x, g.bullets[0].velocity_y), (-5_000_000, 0));
    g.resolve_bullets();
    assert_eq!(g.bullets.len(), 0);
    assert_eq!(g.enemies.len(), MAX_ENEMIES);
}

#[test]
fn far_aim_keeps_speed() {
    let sq = Square::new(-4_000_000_000_000_000_000, 3_000_000_000_000_000_000);
    let b = sq.fire_bullet(4_000_000_000_000_000_000, -3_000_000_000_000_000_000);
    assert_eq!((b.velocity_x, b.velocity_y), (4_000_000, -3_000_000));
    assert_aim_close(&sq, 4_000_000_000_000_000_000, -4_000_000_000_000_000_000);
}

#[test]
fn player_off_display_draws_nothing() {
    let mut g = GameState::new();
    g.square = Square::new(-px(100), px(300));
    let mut buf = frame();
    g.render(&mut buf, TRIG_SCALE as i32, 0);
    assert_eq!(count(&buf, SQUARE_COLOR), 0);
    g.square = Square::new(-px(10), px(300));
    g.render(&mut buf, TRIG_SCALE as i32, 0);
    assert_eq!(count(&buf, SQUARE_COLOR), 10 * 40);
}

#[test]
fn rotation_accumulates() {
    let mut sq = Square::new(0, 0);
    for _ in 0..100 {
        sq.rotate_right();
    }
    sq.rotate_left();
    assert_eq!(sq.angle, 99);
}

fn frame() -> Vec<u32> {
    vec![0u32; WIDTH * HEIGHT]
}

fn count(buf: &[u32], color: u32) -> usize {
    buf.iter().filter(|&&p| p == color).count()
}

#[test]
fn player_at_corner_is_clipped() {
    let mut buf = frame();
    draw_square(&mut buf, 0, 0, TRIG_SCALE as i32, 0);
    assert_eq!(buf.len(), WIDTH * HEIGHT);
    assert_eq!(count(&buf, SQUARE_COLOR), 400);
    assert_eq!(buf[19 + 19 * WIDTH], SQUARE_COLOR);
    assert_eq!(buf[20], 0);
    assert_eq!(buf[20 * WIDTH], 0);
}

#[test]
fn player_in_the_middle_is_full_size() {
    let mut buf = frame();
    draw_square(&mut buf, 400, 300, TRIG_SCALE as i32, 0);
    assert_eq!(count(&buf, SQUARE_COLOR), 1600);
    assert_eq!(buf[380 + 280 * WIDTH], SQUARE_COLOR);
    assert_eq!(buf[419 + 319 * WIDTH], SQUARE_COLOR);
    assert_eq!(buf[420 + 300 * WIDTH], 0);
}

#[test]
fn player_turned_a_quarter() {
    let mut buf = frame();
    // cos = 0, sin = 1: cell (i, j) lands at (-j, i)
    draw_square(&mut buf, 400, 300, 0, TRIG_SCALE as i32);
    assert_eq!(count(&buf, SQUARE_COLOR), 1600);
    assert_eq!(buf[420 + 280 * WIDTH], SQUARE_COLOR);
    assert_eq!(buf[380 + 300 * WIDTH], 0);
}

#[test]
fn projectile_and_target_sizes() {
    let mut buf = frame();
    draw_bullet(&mut buf, 100, 100);
    assert_eq!(count(&buf, BULLET_COLOR), 16);
    assert_eq!(buf[98 + 98 * WIDTH], BULLET_COLOR);
    assert_eq!(buf[102 + 100 * WIDTH], 0);
    draw_enemy(&mut buf, 200, 200);
    assert_eq!(count(&buf, ENEMY_COLOR), 400);
    assert_eq!(buf[190 + 190 * WIDTH], ENEMY_COLOR);
    assert_eq!(buf[210 + 200 * WIDTH], 0);
}

#[test]
fn drawing_at_far_corner_is_clipped() {
    let mut buf = frame();
    draw_enemy(&mut buf, 799, 599);
    assert_eq!(count(&buf, ENEMY_COLOR), 121);
    draw_bullet(&mut buf, -1, -1);
    assert_eq!(count(&buf, BULLET_COLOR), 1);
    draw_enemy(&mut buf, -100, 5000);
    assert_eq!(count(&buf, ENEMY_COLOR), 121);
}

#[test]
fn step_moves_fires_and_advances() {
    let mut g = GameState::new();
    // a full set of targets far away: no spawn, no hit
    for _ in 0..MAX_ENEMIES {
        g.enemies.push(Enemy::new(px(10), px(10)));
    }
    let mut input = no_input();
    input.right = true;
    input.fire = true;
    input.aim_x = px(700);
    input.aim_y = px(300);
    g.step(&input);
    assert_eq!((g.square.x, g.square.y), (px(401), px(300)));
    assert_eq!(g.bullets.len(), 1);
    assert_eq!((g.bullets[0].x, g.bullets[0].y), (px(406), px(300)));
    assert_eq!(g.enemies.len(), MAX_ENEMIES);
}

#[test]
fn collision_at_extreme_coordinates() {
    assert!(is_collision(i64::MAX, i64::MIN, i64::MAX, i64::MIN));
    assert!(!is_collision(i64::MIN, 0, i64::MAX, 0));
    assert!(!is_collision(0, i64::MIN, 0, i64::MAX));
    assert!(is_collision(i64::MAX - 19_999_999, 5, i64::MAX, 5));
}
