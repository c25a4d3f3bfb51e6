use space_shooter::input::{Input, KeyState};
use space_shooter::weapon::cannon::{BulletType, LIFETIME};
use space_shooter::weapon::laser::ready;
use space_shooter::weapon::projectile::{
    ages, expire_all, expire_by_ages, home_in, purge, retire_all, retire_by_ages, Projectile,
};
use space_shooter::weapon::rail_gun::{burst_step, BurstStep, RailGun, MAX_WAVES};
use space_shooter::weapon::trigger::{fire_due, Trigger};

fn holding_f() -> Input {
    let mut input = Input::new();
    input.update("f", KeyState::Pressed);
    input
}

#[test]
fn fire_due_needs_trigger_and_interval() {
    assert!(fire_due(true, false, 100, 100));
    assert!(fire_due(false, true, 101, 100));
    assert!(!fire_due(true, true, 99, 100));
    assert!(!fire_due(false, false, 1000, 100));
}

#[test]
fn automatic_trigger_without_interval_always_fires() {
    let mut t = Trigger::new(0, true);
    let idle = Input::new();
    assert!(t.pull(&idle));
    assert!(t.pull(&idle));
}

#[test]
fn manual_trigger_needs_the_key() {
    let mut t = Trigger::new(0, false);
    assert!(!t.pull(&Input::new()));
    assert!(t.pull(&holding_f()));
}

#[test]
fn trigger_waits_for_its_interval() {
    let mut t = Trigger::new(400, true);
    assert!(!t.pull_after(false, 399));
    assert!(t.pull_after(false, 400));
    let mut long = Trigger::new(1_000_000, false);
    assert!(!long.pull(&holding_f()));
}

#[test]
fn burst_step_starts_a_burst() {
    let s = burst_step(false, 0, true, 1000, 1000, 1000);
    assert_eq!(s, BurstStep { actived: true, waves: 1, rearm: true, fire_wave: true });
    // too soon since the last burst
    let s = burst_step(false, 0, true, 999, 1000, 1000);
    assert_eq!(s, BurstStep { actived: false, waves: 0, rearm: false, fire_wave: false });
    // engaged but the wave interval has not passed
    let s = burst_step(false, 0, true, 1000, 49, 1000);
    assert_eq!(s, BurstStep { actived: true, waves: 0, rearm: true, fire_wave: false });
}

#[test]
fn fifth_wave_ends_the_burst() {
    let s = burst_step(true, MAX_WAVES - 1, false, 0, 50, 1000);
    assert_eq!(s, BurstStep { actived: false, waves: 0, rearm: true, fire_wave: true });
}

#[test]
fn rail_gun_burst_has_five_waves() {
    let mut g = RailGun::new(1000);
    let mut fired = 0;
    // the trigger is pulled once; the burst then runs on its own
    assert!(g.shoot_after(true, 1000, 50));
    fired += 1;
    for _ in 0..10 {
        if g.shoot_after(false, 0, 50) {
            fired += 1;
        }
    }
    assert_eq!(fired, 5);
    // at rest again: nothing without the trigger
    assert!(!g.shoot_after(false, 5000, 5000));
}

#[test]
fn rail_gun_at_rest_ignores_idle_input() {
    let mut g = RailGun::new(0);
    assert!(!g.shoot(&Input::new()));
}

#[test]
fn laser_fires_one_beam() {
    assert!(ready(&holding_f(), 0));
    assert!(!ready(&holding_f(), 1));
    assert!(!ready(&Input::new(), 0));
}

#[test]
fn bullet_types_differ() {
    assert_ne!(BulletType::BulletOrange, BulletType::BulletViolet);
    assert_eq!(LIFETIME, 5000);
}

#[test]
fn projectile_starts_active_without_target() {
    let p: Projectile<&str, (i32, i32)> = Projectile::new(7, "shell");
    assert_eq!(p.id(), 7);
    assert_eq!(*p.body(), "shell");
    assert!(p.is_active());
    assert!(!p.is_destroyed());
    assert!(!p.has_target());
    assert!(p.lifetime() < 60_000);
}

#[test]
fn targets_with_id_zero_do_not_count() {
    let mut p: Projectile<(), (i32, i32)> = Projectile::new(1, ());
    p.set_target(0, (3, 4), false);
    assert!(!p.has_target());
    assert_eq!(p.get_target(), (0, (3, 4)));
    p.set_target(9, (5, 6), false);
    assert!(p.has_target());
    assert_eq!(p.get_target(), (9, (5, 6)));
    assert!(p.is_active());
    p.set_target(9, (5, 6), true);
    assert!(!p.is_active());
}

#[test]
fn projectile_detonates_once() {
    let mut p: Projectile<(), ()> = Projectile::new(1, ());
    assert!(!p.detonate());
    p.desactive();
    assert!(p.detonate());
    assert!(p.is_destroyed());
    assert!(!p.detonate());
}

#[test]
fn expiry_by_age() {
    let mut p: Projectile<(), ()> = Projectile::new(1, ());
    p.expire(5000, 5000);
    assert!(!p.is_destroyed());
    p.expire(5001, 5000);
    assert!(p.is_destroyed());
    let mut q: Projectile<(), ()> = Projectile::new(2, ());
    q.retire(4999, 5000);
    assert!(q.is_active());
    q.retire(5000, 5000);
    assert!(!q.is_active());
    assert!(!q.is_destroyed());
}

#[test]
fn body_can_be_moved() {
    let mut p: Projectile<(i32, i32), ()> = Projectile::new(3, (0, 0));
    p.body_mut().0 += 5;
    assert_eq!(*p.body(), (5, 0));
    assert_eq!(p.id(), 3);
}

#[test]
fn sweeping_by_clock() {
    let mut v: Vec<Projectile<u32, ()>> = (0..4).map(|i| Projectile::new(i, i)).collect();
    expire_all(&mut v, u128::MAX);
    assert!(v.iter().all(|p| !p.is_destroyed()));
    retire_all(&mut v, 0);
    assert!(v.iter().all(|p| !p.is_active() && !p.is_destroyed()));
}

#[test]
fn purge_swaps_in_the_last() {
    let mut v: Vec<Projectile<u32, ()>> = (0..5).map(|i| Projectile::new(i, i)).collect();
    v[1].destroy();
    v[3].destroy();
    let removed = purge(&mut v, false);
    let kept: Vec<u32> = v.iter().map(|p| p.id()).collect();
    let gone: Vec<u32> = removed.iter().map(|p| p.id()).collect();
    assert_eq!(kept, vec![0, 4, 2]);
    assert_eq!(gone, vec![1, 3]);
}

#[test]
fn purge_can_drop_inactive() {
    let mut v: Vec<Projectile<u32, ()>> = (0..4).map(|i| Projectile::new(i, i)).collect();
    v[0].desactive();
    v[2].destroy();
    let mut w: Vec<Projectile<u32, ()>> = (0..4).map(|i| Projectile::new(i, i)).collect();
    w[0].desactive();
    w[2].destroy();
    let r1 = purge(&mut v, false);
    assert_eq!(v.iter().map(|p| p.id()).collect::<Vec<_>>(), vec![0, 1, 3]);
    assert_eq!(r1.len(), 1);
    let r2 = purge(&mut w, true);
    assert_eq!(w.iter().map(|p| p.id()).collect::<Vec<_>>(), vec![3, 1]);
    assert_eq!(r2.iter().map(|p| p.id()).collect::<Vec<_>>(), vec![0, 2]);
}

#[test]
fn untargeted_missile_picks_closest_living_enemy() {
    let ids = vec![4u32, 5, 6, 7];
    let pos = vec![(0, 0), (1, 1), (2, 2), (3, 3)];
    let keys = vec![30u32, 10, 5, 20];
    let alive = vec![true, true, false, true];
    let mut p: Projectile<(), (i32, i32)> = Projectile::new(1, ());
    home_in(&mut p, &ids, &pos, &keys, &alive, &vec![false; 4]);
    assert_eq!(p.get_target(), (5, (1, 1)));
    assert!(p.is_active());
}

#[test]
fn aiming_at_an_enemy_within_reach_stops_the_missile() {
    let ids = vec![4u32, 5];
    let pos = vec![(0, 0), (1, 1)];
    // the first enemy is a new closest before the second: it was aimed at too
    let mut p: Projectile<(), (i32, i32)> = Projectile::new(1, ());
    home_in(&mut p, &ids, &pos, &vec![30, 10], &vec![true, true], &vec![true, false]);
    assert_eq!(p.get_target(), (5, (1, 1)));
    assert!(!p.is_active());
}

#[test]
fn targeted_missile_follows_its_target() {
    let mut p: Projectile<(), (i32, i32)> = Projectile::new(1, ());
    p.set_target(6, (0, 0), false);
    let ids = vec![5u32, 6, 7];
    let pos = vec![(1, 1), (9, 9), (2, 2)];
    home_in(&mut p, &ids, &pos, &vec![0, 50, 0], &vec![true, true, true], &vec![false; 3]);
    assert_eq!(p.get_target(), (6, (9, 9)));
    // a target that is gone leaves the missile as it was
    home_in(&mut p, &vec![5], &vec![(1, 1)], &vec![0], &vec![true], &vec![true]);
    assert_eq!(p.get_target(), (6, (9, 9)));
    assert!(p.is_active());
}

#[test]
fn missile_without_living_enemies_keeps_no_target() {
    let mut p: Projectile<(), (i32, i32)> = Projectile::new(1, ());
    home_in(&mut p, &vec![5], &vec![(1, 1)], &vec![0], &vec![false], &vec![true]);
    assert!(!p.has_target());
    assert!(p.is_active());
}

#[test]
fn purge_twice_keeps_everything_the_first_kept() {
    let mut v: Vec<Projectile<u32, ()>> = (0..6).map(|i| Projectile::new(i, i)).collect();
    v[0].destroy();
    v[4].desactive();
    let first = purge(&mut v, true);
    assert_eq!(first.len(), 2);
    let kept: Vec<u32> = v.iter().map(|p| p.id()).collect();
    let second = purge(&mut v, true);
    assert!(second.is_empty());
    assert_eq!(v.iter().map(|p| p.id()).collect::<Vec<_>>(), kept);
}

#[test]
fn expiry_by_given_ages() {
    let mut v: Vec<Projectile<u32, ()>> = (0..3).map(|i| Projectile::new(i, i)).collect();
    assert_eq!(ages(&v).len(), 3);
    expire_by_ages(&mut v, &vec![5000, 5001, 0], 5000);
    assert_eq!(v.iter().map(|p| p.is_destroyed()).collect::<Vec<_>>(), vec![false, true, false]);
    assert!(v.iter().all(|p| p.is_active()));
    retire_by_ages(&mut v, &vec![5000, 4999, 7000], 5000);
    assert_eq!(v.iter().map(|p| p.is_active()).collect::<Vec<_>>(), vec![false, true, false]);
    assert_eq!(v.iter().map(|p| p.is_destroyed()).collect::<Vec<_>>(), vec![false, true, false]);
}

#[test]
fn retired_missiles_survive_the_sweep() {
    let mut v: Vec<Projectile<u32, ()>> = (0..3).map(|i| Projectile::new(i, i)).collect();
    v[1].destroy();
    retire_all(&mut v, 0);
    let removed = purge(&mut v, false);
    assert_eq!(removed.iter().map(|p| p.id()).collect::<Vec<_>>(), vec![1]);
    assert_eq!(v.iter().map(|p| p.id()).collect::<Vec<_>>(), vec![0, 2]);
    assert!(v.iter().all(|p| !p.is_active()));
}

#[test]
fn destroying_twice_changes_nothing() {
    let mut p: Projectile<u32, ()> = Projectile::new(4, 9);
    p.destroy();
    p.destroy();
    assert!(p.is_destroyed());
    assert!(p.is_active());
    assert_eq!(*p.body(), 9);
    assert_eq!(p.id(), 4);
}
