use space_shooter::ai::patrol_area::PatrolArea;
use space_shooter::audio::Sounds;
use space_shooter::entities::{Health, BOSS_HIT_POINTS, EVIL_SHIP_HIT_POINTS, SWIFT_SHIP_HIT_POINTS};
use space_shooter::explosion::{Explosion, LAST_FRAME};
use space_shooter::input::{Input, KeyState};
use space_shooter::player::{evasion_step, Evasion, EvasionStep};
use space_shooter::util::FAR;

#[test]
fn explosion_shows_seven_frames_then_ends() {
    let mut e = Explosion::new();
    assert_eq!(e.frame(), 0);
    assert!(!e.advance(false));
    assert_eq!(e.frame(), 0);
    for f in 1..=LAST_FRAME {
        assert!(e.advance(true));
        assert_eq!(e.frame(), f);
        assert!(!e.end());
    }
    assert!(!e.advance(true));
    assert!(e.end());
    assert_eq!(e.frame(), LAST_FRAME);
    assert!(!e.advance(true));
    assert!(e.end());
}

#[test]
fn ships_die_at_zero() {
    let mut h = Health::new(SWIFT_SHIP_HIT_POINTS);
    h.hit(9);
    assert!(h.alive());
    assert_eq!(h.get_hit_points(), 1);
    h.hit(1);
    assert!(!h.alive());
    assert_eq!(h.get_hit_points(), 0);
    let mut e = Health::new(EVIL_SHIP_HIT_POINTS);
    e.hit(20);
    assert!(!e.alive());
    assert_eq!(e.get_hit_points(), -5);
    e.hit(-100);
    assert!(!e.alive());
}

#[test]
fn boss_only_loses_points() {
    let mut b = Health::new(BOSS_HIT_POINTS);
    b.absorb(600);
    assert!(b.alive());
    assert_eq!(b.get_hit_points(), -100);
    b.destroy();
    assert!(!b.alive());
}

#[test]
fn patrol_cycles_through_points() {
    let mut p = PatrolArea::new(vec!["a", "b", "c"]);
    assert_eq!(p.current_point(), 0);
    p.next();
    assert_eq!(p.current_point(), 1);
    p.next();
    assert_eq!(p.current_point(), 2);
    p.next();
    assert_eq!(p.current_point(), 0);
    assert_eq!(*p.point(2), "c");
    assert_eq!(p.len(), 3);
}

#[test]
fn patrol_starts_at_closest_other_point() {
    let mut p = PatrolArea::new(vec![0, 1, 2, 3]);
    // the point headed for (0) is skipped even though it is closest
    let keys = vec![1u32, 30, 20, 20];
    assert_eq!(p.get_direction(&keys), 2);
    assert_eq!(p.current_point(), 2);
    // once started, the patrol keeps its waypoint
    assert_eq!(p.get_direction(&vec![9, 9, 9, 0]), 2);
}

#[test]
fn patrol_falls_back_to_first_point() {
    let mut p = PatrolArea::new(vec![0, 1]);
    p.next();
    assert_eq!(p.get_direction_closer_point(&vec![FAR, 0]), 0);
    let mut single = PatrolArea::new(vec![5]);
    assert_eq!(single.get_direction_closer_point(&vec![3]), 0);
}

#[test]
fn evasion_step_cases() {
    assert_eq!(
        evasion_step(false, true, 5000, 0),
        EvasionStep { start: true, trail: true, stop: false, evading: true }
    );
    assert_eq!(
        evasion_step(false, true, 4999, 0),
        EvasionStep { start: false, trail: false, stop: false, evading: false }
    );
    assert_eq!(
        evasion_step(true, false, 0, 2500),
        EvasionStep { start: false, trail: true, stop: true, evading: false }
    );
    assert_eq!(
        evasion_step(false, true, 6000, 3000),
        EvasionStep { start: true, trail: true, stop: true, evading: false }
    );
}

#[test]
fn keyboard_never_starts_an_evasion() {
    let mut input = Input::new();
    input.update("v", KeyState::Pressed);
    let mut ev = Evasion::new();
    let s = ev.update(&input);
    assert!(!s.start);
    assert!(!ev.evading());
    let s = ev.update_after(true, 5000, 0);
    assert!(s.start);
    assert!(ev.evading());
}

#[test]
fn sounds_are_distinct() {
    assert_ne!(Sounds::MainTheme, Sounds::Explosion);
    assert_ne!(Sounds::Explosion, Sounds::Shoot);
}
