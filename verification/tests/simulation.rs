use snake::fruit::{field_coord, Fruit};
use snake::game::{rotation_dir, Game};
use snake::geom::Vec2;
use snake::head::Head;
use snake::snake::Snake;
use snake::unit::Unit;

fn ident_rot() -> Vec2 {
    Vec2 { x: 1000, y: 0 }
}

#[test]
fn unit_stays_within_gap() {
    let mut u = Unit { position: Vec2 { x: 0, y: 0 } };
    u.go(Vec2 { x: 80, y: 0 });
    assert_eq!(u.position, Vec2 { x: 0, y: 0 });
    let mut v = Unit { position: Vec2 { x: 30, y: -30 } };
    v.go(Vec2 { x: 0, y: 0 });
    assert_eq!(v.position, Vec2 { x: 30, y: -30 });
}

#[test]
fn unit_chases_far_leader() {
    let mut u = Unit { position: Vec2 { x: 0, y: 0 } };
    u.go(Vec2 { x: 1000, y: 0 });
    assert_eq!(u.position, Vec2 { x: 920, y: 0 });
    let dx = (u.position.x - 1000) as i128;
    let dy = (u.position.y - 0) as i128;
    assert_eq!(dx * dx + dy * dy, 6400);
}

#[test]
fn unit_chase_lands_near_gap_diagonally() {
    let mut u = Unit { position: Vec2 { x: -500, y: -500 } };
    u.go(Vec2 { x: 300, y: 400 });
    let dx = (u.position.x - 300) as i128;
    let dy = (u.position.y - 400) as i128;
    let d2 = dx * dx + dy * dy;
    assert!(6074 < d2 && d2 < 6561, "squared gap after chase was {}", d2);
}

#[test]
fn unit_intersect_boundary() {
    let u = Unit { position: Vec2 { x: 0, y: 0 } };
    assert!(u.intersect(Vec2 { x: 71, y: 0 }, 32));
    assert!(!u.intersect(Vec2 { x: 72, y: 0 }, 32));
}

#[test]
fn head_rotate_quarter_turn() {
    let mut h = Head {
        unit: Unit { position: Vec2 { x: 0, y: 0 } },
        direction: Vec2 { x: 1000, y: 0 },
        speed: 400,
    };
    h.rotate(Vec2 { x: 0, y: 1000 });
    assert_eq!(h.direction, Vec2 { x: 0, y: 1000 });
}

#[test]
fn head_rotate_keeps_norm_in_band() {
    let mut h = Head {
        unit: Unit { position: Vec2 { x: 0, y: 0 } },
        direction: Vec2 { x: 1000, y: 0 },
        speed: 400,
    };
    // an eighth of a turn, rounded onto the grid
    let rot = Vec2 { x: 707, y: 707 };
    for _ in 0..64 {
        h.rotate(rot);
        let n2 = h.direction.x * h.direction.x + h.direction.y * h.direction.y;
        assert!(995 * 995 <= n2 && n2 <= 1005 * 1005, "norm drifted to {}", n2);
    }
}

#[test]
fn head_advances_along_heading() {
    let mut h = Head {
        unit: Unit { position: Vec2 { x: 0, y: 0 } },
        direction: Vec2 { x: 1000, y: 0 },
        speed: 400,
    };
    h.go(1000);
    assert_eq!(h.position(), Vec2 { x: 400, y: 0 });
    h.go(16);
    assert_eq!(h.position(), Vec2 { x: 406, y: 0 });
}

#[test]
fn snake_go_propagates_chain() {
    let mut s = Snake::default();
    s.add_unit();
    s.go(1000, ident_rot());
    assert_eq!(s.head.unit.position, Vec2 { x: 400, y: 0 });
    assert_eq!(s.units[0].position, Vec2 { x: 320, y: 0 });
}

#[test]
fn snake_grow_appends_on_tail() {
    let mut s = Snake::default();
    assert_eq!(s.length(), 1);
    s.add_unit();
    assert_eq!(s.length(), 2);
    assert_eq!(s.units[0].position, Vec2 { x: 0, y: 0 });
    s.go(1000, ident_rot());
    let tail = s.units[0].position;
    s.add_unit();
    assert_eq!(s.length(), 3);
    assert_eq!(s.units[1].position, tail);
}

#[test]
fn fresh_snake_is_not_losing() {
    let s = Snake::default();
    assert!(!s.is_lose());
}

#[test]
fn head_on_wall_is_losing() {
    let mut s = Snake::default();
    s.head.unit.position = Vec2 { x: 1000, y: 0 };
    assert!(s.is_lose());
    let mut t = Snake::default();
    t.head.unit.position = Vec2 { x: 0, y: -1000 };
    t.add_unit();
    assert!(t.is_lose());
}

#[test]
fn first_unit_is_exempt_from_self_collision() {
    let mut s = Snake::default();
    s.add_unit();
    assert!(!s.is_lose());
    s.add_unit();
    assert!(s.is_lose());
}

#[test]
fn can_eat_at_touching_distance() {
    let s = Snake::default();
    assert!(s.can_eat(&Fruit { position: Vec2 { x: 99, y: 0 } }));
    assert!(!s.can_eat(&Fruit { position: Vec2 { x: 100, y: 0 } }));
}

#[test]
fn field_coord_spans_field() {
    assert_eq!(field_coord(0), -1000);
    assert_eq!(field_coord(u32::MAX), 1000);
    assert_eq!(field_coord(u32::MAX / 2), -1);
}

#[test]
fn respawn_lands_in_field() {
    for _ in 0..32 {
        let f = Fruit::respawn();
        assert!(-1000 <= f.position.x && f.position.x <= 1000);
        assert!(-1000 <= f.position.y && f.position.y <= 1000);
    }
}

#[test]
fn rotation_dir_combines_keys() {
    assert_eq!(rotation_dir(true, false), 1);
    assert_eq!(rotation_dir(false, true), -1);
    assert_eq!(rotation_dir(true, true), 0);
    assert_eq!(rotation_dir(false, false), 0);
}

#[test]
fn eating_grows_and_respawns_fruit() {
    let mut g = Game {
        snake: Snake::default(),
        fruit: Fruit { position: Vec2 { x: 0, y: 0 } },
    };
    g.step(16, ident_rot());
    assert_eq!(g.snake.length(), 2);
    assert!(-1000 <= g.fruit.position.x && g.fruit.position.x <= 1000);
    assert!(-1000 <= g.fruit.position.y && g.fruit.position.y <= 1000);
}

#[test]
fn crossing_the_wall_loses_and_resets() {
    let mut s = Snake::default();
    s.go(1000, ident_rot());
    s.go(1000, ident_rot());
    assert!(!s.is_lose());
    s.go(1000, ident_rot());
    assert_eq!(s.head.unit.position, Vec2 { x: 1200, y: 0 });
    assert!(s.is_lose());
    let fresh = Snake::default();
    assert_eq!(fresh.length(), 1);
    assert_eq!(fresh.head.unit.position, Vec2 { x: 0, y: 0 });
}

#[test]
fn step_resets_after_wall_crossing() {
    let mut g = Game {
        snake: Snake::default(),
        fruit: Fruit { position: Vec2 { x: -900, y: -900 } },
    };
    for _ in 0..3 {
        g.step(1000, ident_rot());
    }
    assert_eq!(g.snake.length(), 1);
    assert_eq!(g.snake.head.unit.position, Vec2 { x: 0, y: 0 });
}
