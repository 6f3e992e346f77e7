use tileworld::collision::{Collider, ColliderHandle, CollisionGroup};

fn events_for(
    events: &Vec<(ColliderHandle, Vec<i32>)>,
    handle: ColliderHandle,
) -> Option<Vec<i32>> {
    for (h, data) in events {
        if *h == handle {
            return Some(data.clone());
        }
    }
    None
}

#[test]
fn collision_test() {
    let mut col_sys = CollisionGroup::new();
    let team0hit = 0b0001_u8;
    let team0hurt = 0b0010_u8;
    let team1hit = 0b0100_u8;
    let team1hurt = 0b1000_u8;
    let hurt0 = col_sys.register(team0hurt, 0, 0, Collider::Circle { x: 0, y: 0, r: 2 });
    let hurt1 = col_sys.register(team0hurt, 0, 0, Collider::Circle { x: 5, y: 5, r: 2 });
    let hit0 = col_sys.register(team0hit, team1hurt, 1, Collider::Circle { x: 3, y: 0, r: 2 });
    let hit1 = col_sys.register(team1hit, team0hurt, 2, Collider::Circle { x: 3, y: 0, r: 2 });
    let hithurt0 = col_sys.register(
        team1hit | team1hurt,
        team1hurt,
        3,
        Collider::Circle { x: 3, y: 0, r: 2 },
    );
    let hithurt1 = col_sys.register(
        team1hit | team1hurt,
        team1hurt,
        4,
        Collider::Circle { x: 3, y: 0, r: 2 },
    );

    let events = col_sys.generate_contact_events();

    let events0 = events_for(&events, hit0);
    let events1 = events_for(&events, hit1);
    let events2 = events_for(&events, hurt0);
    let events3 = events_for(&events, hurt1);
    let events4 = events_for(&events, hithurt0);
    let events5 = events_for(&events, hithurt1);

    assert_eq!(events0, Some(vec![3, 4]));
    assert_eq!(events1, Some(vec![0]));
    assert_eq!(events2, None);
    assert_eq!(events3, None);
    assert_eq!(events4, Some(vec![4]));
    assert_eq!(events5, Some(vec![3]));
}

#[test]
fn unregister_drops_a_collider() {
    let mut col_sys = CollisionGroup::new();
    let a = col_sys.register(1u8, 1u8, 10, Collider::Circle { x: 0, y: 0, r: 2 });
    let _b = col_sys.register(1u8, 1u8, 20, Collider::Circle { x: 1, y: 0, r: 2 });
    col_sys.unregister(a);
    let events = col_sys.generate_contact_events();
    assert_eq!(events_for(&events, a), None);
}
