use network::server::world::World;
use network::shared::SimInput;

#[test]
fn step() {
    let start_frame = 0;
    let mut ctx = World::new(start_frame, 8, 0);
    let input = Vec::<SimInput>::new();
    assert_eq!(ctx.step(input), start_frame + 1);
    let input = Vec::<SimInput>::new();
    assert_eq!(ctx.step(input), start_frame + 2);
    let input = Vec::<SimInput>::new();
    assert_eq!(ctx.step(input), start_frame + 3);
}

#[test]
fn simserver_context_step() {
    let start_frame = 0;
    let mut ctx = World::new(start_frame, 8, 0);
    let input = Vec::<SimInput>::new();
    assert_eq!(ctx.step(input), start_frame + 1);
    let input = Vec::<SimInput>::new();
    assert_eq!(ctx.step(input), start_frame + 2);
    let input = Vec::<SimInput>::new();
    assert_eq!(ctx.step(input), start_frame + 3);

    ctx.stop();
}

#[test]
fn object_creation() {
    let mut ctx = World::new(0, 8, 1);
    let obj = ctx.add_object();
    assert!(obj.is_some());
    assert_eq!(ctx.remove_object(obj.unwrap()), true);

    let obj = ctx.add_object();
    assert!(obj.is_some());

    let obj = ctx.add_object();
    assert!(obj.is_none());
}

#[test]
fn head_strictly_increases_with_each_step() {
    let mut world = World::new(41, 0, 0);
    let mut previous = world.head();
    for _ in 0..5 {
        let frame = world.step(Vec::new());
        assert!(frame > previous);
        assert_eq!(frame, previous + 1);
        assert_eq!(world.head(), frame);
        previous = frame;
    }
    assert_eq!(previous, 46);
}

#[test]
fn object_ids_start_at_one_and_are_never_reissued() {
    let mut world = World::new(0, 0, 2);
    assert_eq!(world.add_object(), Some(1));
    assert_eq!(world.add_object(), Some(2));
    assert_eq!(world.add_object(), None);
    assert!(world.remove_object(1));
    assert!(!world.remove_object(1));
    assert_eq!(world.add_object(), Some(3));
    assert!(world.remove_object(2));
    assert!(world.remove_object(3));
    assert_eq!(world.add_object(), Some(4));
}

#[test]
fn world_without_object_capacity_refuses_objects() {
    let mut world = World::new(0, 8, 0);
    assert_eq!(world.add_object(), None);
    assert!(!world.remove_object(1));
}

#[test]
fn actor_indices_follow_the_table() {
    let mut world = World::new(0, 4, 0);
    assert_eq!(world.add_actor("a"), 0);
    assert_eq!(world.add_actor("b"), 1);
    assert_eq!(world.add_actor("c"), 2);
    world.remove_actor(0);
    assert_eq!(world.add_actor("d"), 2);
}

#[test]
fn context_step() {
    let start_frame = 0;
    let mut ctx = World::new(start_frame, 8, 0);
    let input = Vec::<SimInput>::new();
    assert_eq!(ctx.step(input), start_frame + 1);
    let input = Vec::<SimInput>::new();
    assert_eq!(ctx.step(input), start_frame + 2);
    let input = Vec::<SimInput>::new();
    assert_eq!(ctx.step(input), start_frame + 3);

    ctx.stop();
}
