use frog_quest_battle::geometry::{Point2D, Rect, Size2D, Vector2D};
use frog_quest_battle::hash::hash_u64;
use frog_quest_battle::program::{Object, Program};
use frog_quest_battle::renderer::Color;

fn object(x: i32, y: i32, vx: i32, vy: i32) -> Object {
    Object {
        rect: Rect::new(Point2D::new(x, y), Size2D::new(10, 10)),
        velocity: Vector2D::new(vx, vy),
        color: Color { r: 1, g: 2, b: 3 },
    }
}

#[test]
fn a_program_starts_with_one_square() {
    let p = Program::new();
    assert_eq!(p.counter, 0);
    assert_eq!(p.objects.len(), 1);
    assert_eq!(p.objects[0].rect, Rect::new(Point2D::new(0, 0), Size2D::new(10, 10)));
    assert_eq!(p.objects[0].velocity, Vector2D::new(1, 1));
    assert_eq!(p.objects[0].color, Color { r: 197, g: 57, b: 26 });
    assert_eq!(hash_u64(0) & 0xff_ffff, 26 << 16 | 57 << 8 | 197);
}

#[test]
fn a_key_adds_a_square_in_the_colour_of_the_counter() {
    let mut p = Program::new();
    assert_eq!(p.tick(), 10);
    assert_eq!(p.counter, 13);
    p.on_key_up("Enter");
    assert_eq!(p.objects.len(), 1);
    p.on_key_down("Enter");
    assert_eq!(p.objects.len(), 2);
    assert_eq!(p.objects[1].color, Color { r: 40, g: 24, b: 232 });
    assert_eq!(p.objects[1].rect.origin, Point2D::new(0, 0));
    assert_eq!(p.objects[0].rect.origin, Point2D::new(1, 1));
    p.tick();
    p.on_key_down("x");
    assert_eq!(p.counter, 26);
    assert_eq!(p.objects[2].color, Color { r: 31, g: 193, b: 103 });
}

#[test]
fn squares_drift_bounce_and_come_back_from_the_left() {
    let mut o = object(5, 5, 1, 1);
    o.tick();
    assert_eq!(o, object(6, 6, 1, 1));
    let mut top = object(5, 1, 1, -1);
    top.tick();
    assert_eq!(top, object(6, 0, 1, 1));
    let mut bottom = object(5, 133, 1, 1);
    bottom.tick();
    assert_eq!(bottom, object(6, 134, 1, -1));
    let mut edge = object(5, 132, 1, 1);
    edge.tick();
    assert_eq!(edge, object(6, 133, 1, 1));
    let mut leaving = object(313, 50, 1, 1);
    leaving.tick();
    assert_eq!(leaving, object(314, 51, 1, 1));
    leaving.tick();
    assert_eq!(leaving, object(-10, 52, 1, 1));
    leaving.tick();
    assert_eq!(leaving, object(-9, 53, 1, 1));
    let mut gone = object(-30, 50, -1, 0);
    gone.tick();
    assert_eq!(gone, object(-10, 50, -1, 0));
}

#[test]
fn the_picture_shows_the_first_square_over_the_background() {
    let mut p = Program::new();
    p.objects[0].rect.origin = Point2D::new(300, 140);
    p.objects.push(object(305, 141, 0, 0));
    p.draw();
    let show = |x: i32, y: i32| p.renderer.pixel(Point2D::new(x, y));
    assert_eq!(show(0, 0), Color { r: 0, g: 0, b: 0 });
    assert_eq!(show(7, 9), Color { r: 7, g: 9, b: 7 });
    assert_eq!(show(255, 100), Color { r: 255, g: 100, b: 255 });
    assert_eq!(show(256, 142), Color { r: 0, g: 142, b: 0 });
    assert_eq!(show(299, 140), Color { r: 43, g: 140, b: 43 });
    assert_eq!(show(300, 140), Color { r: 197, g: 57, b: 26 });
    assert_eq!(show(309, 142), Color { r: 197, g: 57, b: 26 });
    assert_eq!(show(310, 142), Color { r: 1, g: 2, b: 3 });
    assert_eq!(show(314, 141), Color { r: 1, g: 2, b: 3 });
    assert_eq!(show(310, 140), Color { r: 54, g: 140, b: 54 });
    assert!(p.renderer.buffer().chunks(4).all(|px| px[3] == 255));
}
