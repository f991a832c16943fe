use rigid2d::body::{BodyHandle, BodyKind};
use rigid2d::world::{World, WorldError};

#[test]
fn spawn_gives_distinct_live_handles() {
    let mut w: World<&str, u32> = World::new();
    let floor = w.spawn(BodyKind::Static, "floor");
    let ball = w.spawn(BodyKind::Dynamic, "ball");
    assert_ne!(floor, ball);
    assert_eq!(floor, BodyHandle { index: 0, generation: 0 });
    assert_eq!(ball, BodyHandle { index: 1, generation: 0 });
    assert_eq!(w.slot_count(), 2);
    let b = w.get(ball).unwrap();
    assert_eq!(b.kind, BodyKind::Dynamic);
    assert_eq!(b.state, "ball");
    assert_eq!(w.get(floor).unwrap().kind, BodyKind::Static);
    assert_eq!(w.resolve(ball), Some(1));
    assert_eq!(w.kind_at(0), Some(BodyKind::Static));
    assert_eq!(w.kind_at(2), None);
    assert_eq!(w.handle_at(1), Some(ball));
}

#[test]
fn despawn_makes_handle_stale_and_slot_reused_with_new_generation() {
    let mut w: World<u8, u32> = World::new();
    let a = w.spawn(BodyKind::Dynamic, 1);
    let b = w.spawn(BodyKind::Dynamic, 2);
    assert!(w.despawn(a));
    assert!(!w.despawn(a));
    assert!(w.get(a).is_none());
    assert_eq!(w.resolve(a), None);
    assert_eq!(w.kind_at(0), None);
    let c = w.spawn(BodyKind::Static, 3);
    assert_eq!(c, BodyHandle { index: 0, generation: 1 });
    assert!(w.get(a).is_none());
    assert_eq!(w.get(c).unwrap().state, 3);
    assert_eq!(w.get(b).unwrap().state, 2);
    assert_eq!(w.slot_count(), 2);
}

#[test]
fn despawn_of_unknown_handle_changes_nothing() {
    let mut w: World<u8, u32> = World::new();
    let a = w.spawn(BodyKind::Dynamic, 1);
    assert!(!w.despawn(BodyHandle { index: 0, generation: 7 }));
    assert!(!w.despawn(BodyHandle { index: 5, generation: 0 }));
    assert_eq!(w.get(a).unwrap().state, 1);
}

#[test]
fn add_spring_rejects_dangling_owner_and_other() {
    let mut w: World<u8, u32> = World::new();
    let a = w.spawn(BodyKind::Dynamic, 1);
    let b = w.spawn(BodyKind::Dynamic, 2);
    let gone = BodyHandle { index: 9, generation: 0 };
    assert_eq!(w.add_spring(gone, b, 10), Err(WorldError::DanglingOwner));
    assert_eq!(w.add_spring(a, gone, 10), Err(WorldError::DanglingOther));
    assert_eq!(w.spring_count(), 0);
    assert_eq!(w.add_spring(a, b, 10), Ok(()));
    assert_eq!(w.spring_count(), 1);
    assert_eq!(w.spring_at(0).owner, a);
    assert_eq!(w.spring_at(0).other, b);
    assert_eq!(w.spring_at(0).params, 10);
}

#[test]
fn add_spring_to_despawned_body_is_an_error() {
    let mut w: World<u8, u32> = World::new();
    let a = w.spawn(BodyKind::Dynamic, 1);
    let b = w.spawn(BodyKind::Dynamic, 2);
    assert!(w.despawn(b));
    assert_eq!(w.add_spring(a, b, 1), Err(WorldError::DanglingOther));
}

#[test]
fn spawn_spring_pair_links_both_ways() {
    let mut w: World<u8, u32> = World::new();
    let floor = w.spawn(BodyKind::Static, 0);
    let (a, b) = w.spawn_spring_pair(1, 2, 25, 26);
    assert_ne!(a, b);
    assert_ne!(a, floor);
    assert_eq!(w.get(a).unwrap().kind, BodyKind::Dynamic);
    assert_eq!(w.get(b).unwrap().kind, BodyKind::Dynamic);
    assert_eq!(w.get(a).unwrap().state, 1);
    assert_eq!(w.get(b).unwrap().state, 2);
    assert_eq!(w.spring_count(), 2);
    assert_eq!((w.spring_at(0).owner, w.spring_at(0).other, w.spring_at(0).params), (a, b, 25));
    assert_eq!((w.spring_at(1).owner, w.spring_at(1).other, w.spring_at(1).params), (b, a, 26));
}

#[test]
fn despawn_removes_every_spring_touching_the_body() {
    let mut w: World<u8, u32> = World::new();
    let (a, b) = w.spawn_spring_pair(1, 2, 10, 11);
    let c = w.spawn(BodyKind::Dynamic, 3);
    assert_eq!(w.add_spring(c, a, 12), Ok(()));
    assert_eq!(w.add_spring(b, c, 13), Ok(()));
    assert_eq!(w.spring_count(), 4);
    assert!(w.despawn(a));
    assert_eq!(w.spring_count(), 1);
    assert_eq!(w.spring_at(0).owner, b);
    assert_eq!(w.spring_at(0).other, c);
    assert_eq!(w.spring_at(0).params, 13);
}

#[test]
fn static_body_state_cannot_be_replaced() {
    let mut w: World<(i32, i32), u32> = World::new();
    let floor = w.spawn(BodyKind::Static, (0, -500));
    let ball = w.spawn(BodyKind::Dynamic, (0, 0));
    assert!(!w.set_state_at(floor.index, (0, 100)));
    assert_eq!(w.get(floor).unwrap().state, (0, -500));
    assert!(w.set_state_at(ball.index, (3, 4)));
    assert_eq!(w.get(ball).unwrap().state, (3, 4));
    assert_eq!(w.get(ball).unwrap().kind, BodyKind::Dynamic);
    assert!(!w.set_state_at(7, (1, 1)));
}

#[test]
fn live_bodies_lists_handles_in_slot_order() {
    let mut w: World<u8, u32> = World::new();
    let a = w.spawn(BodyKind::Dynamic, 1);
    let b = w.spawn(BodyKind::Static, 2);
    let c = w.spawn(BodyKind::Dynamic, 3);
    assert_eq!(w.live_bodies(), vec![a, b, c]);
    assert!(w.despawn(b));
    assert_eq!(w.live_bodies(), vec![a, c]);
    let d = w.spawn(BodyKind::Dynamic, 4);
    assert_eq!(d, BodyHandle { index: 1, generation: 1 });
    assert_eq!(w.live_bodies(), vec![a, d, c]);
    let empty: World<u8, u32> = World::new();
    assert!(empty.live_bodies().is_empty());
}
