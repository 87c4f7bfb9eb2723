use network::server::control::Control;
use network::server::world::World;
use network::shared::{FrameId, SimCommand, SimInput};
use std::time::Duration;

#[test]
fn update() {
    let frame_duration = Duration::from_millis(16);
    let mut ctx = Control::new(2, frame_duration);
    assert!(ctx.update(frame_duration).is_some());

    assert!(ctx
        .update(frame_duration - Duration::from_millis(1))
        .is_none());

    assert!(ctx.update(Duration::from_millis(1)).is_some());

    assert!(ctx.update(2 * frame_duration).is_some());
    assert!(ctx.update(Duration::from_millis(0)).is_some());
    assert!(ctx.update(Duration::from_millis(0)).is_none());
}

#[test]
fn simserver_control_update() {
    let frame_duration = Duration::from_millis(16);
    let mut ctx = Control::new(2, frame_duration);
    assert!(ctx.update(frame_duration).is_some());

    assert!(ctx
        .update(frame_duration - Duration::from_millis(1))
        .is_none());

    assert!(ctx.update(Duration::from_millis(1)).is_some());

    assert!(ctx.update(2 * frame_duration).is_some());
    assert!(ctx.update(Duration::from_millis(0)).is_some());
    assert!(ctx.update(Duration::from_millis(0)).is_none());
}

#[test]
fn simserver_input_size() {
    const CAPACITY: i16 = 2;
    const DELTA: Duration = Duration::from_millis(16);
    const START_FRAME: FrameId = 0;
    let mut ctrl = Control::new(CAPACITY, DELTA);
    let mut world = World::new(START_FRAME, CAPACITY, 0);

    assert_eq!(ctrl.add_actor(START_FRAME), world.add_actor("first"));

    let inputs = ctrl.update(DELTA);
    assert!(inputs.is_some());
    let inputs = inputs.unwrap();
    assert_eq!(inputs.len(), 1);

    let current_frame = world.step(inputs);

    assert_eq!(ctrl.add_actor(current_frame), world.add_actor("second"));

    let inputs = ctrl.update(DELTA);
    assert!(inputs.is_some());
    let inputs = inputs.unwrap();
    assert_eq!(inputs.len(), 2);

    world.step(inputs);
}

#[test]
fn update_without_actors_hands_out_an_empty_list() {
    let mut ctx = Control::new(2, Duration::from_millis(16));
    assert_eq!(ctx.update(Duration::from_millis(16)), Some(Vec::new()));
}

#[test]
fn advance_counts_in_nanoseconds() {
    let mut ctx = Control::new(1, Duration::from_nanos(10));
    assert!(ctx.advance(9).is_none());
    assert!(ctx.advance(1).is_some());
    assert!(ctx.advance(0).is_none());
    assert!(ctx.advance(25).is_some());
    assert!(ctx.advance(0).is_some());
    assert!(ctx.advance(4).is_none());
    assert!(ctx.advance(1).is_some());
    assert!(ctx.advance(0).is_none());
}

#[test]
fn update_takes_the_length_of_the_duration() {
    // would pass for no frame length if the duration's length were lost
    let mut ctx = Control::new(1, Duration::from_micros(3));
    assert!(ctx.advance(2_999).is_none());
    assert!(ctx.update(Duration::from_nanos(1)).is_some());
    assert!(ctx.update(Duration::from_micros(2)).is_none());
    assert!(ctx.update(Duration::from_micros(1)).is_some());
}

#[test]
fn each_frame_consumes_one_command_per_actor_in_index_order() {
    let mut ctx = Control::new(3, Duration::from_millis(16));
    let a = ctx.add_actor(0);
    let b = ctx.add_actor(0);
    assert_eq!((a, b), (0, 1));
    ctx.add_commands(a, &[SimCommand { buttons: 1 }, SimCommand { buttons: 2 }], 2);
    ctx.add_commands(b, &[SimCommand { buttons: 7 }], 1);
    let first = ctx.update(Duration::from_millis(16)).unwrap();
    assert_eq!(
        first,
        vec![
            SimInput { previous: SimCommand::default(), current: SimCommand { buttons: 1 } },
            SimInput { previous: SimCommand::default(), current: SimCommand { buttons: 7 } },
        ]
    );
    let second = ctx.update(Duration::from_millis(16)).unwrap();
    assert_eq!(
        second,
        vec![
            SimInput { previous: SimCommand { buttons: 1 }, current: SimCommand { buttons: 2 } },
            SimInput { previous: SimCommand { buttons: 7 }, current: SimCommand { buttons: 7 } },
        ]
    );
}

#[test]
fn remove_actor_moves_the_last_buffer_into_the_vacated_index() {
    let mut ctx = Control::new(3, Duration::from_millis(16));
    for _ in 0..3 {
        ctx.add_actor(0);
    }
    ctx.add_commands(2, &[SimCommand { buttons: 9 }], 1);
    ctx.remove_actor(0);
    let inputs = ctx.update(Duration::from_millis(16)).unwrap();
    assert_eq!(inputs.len(), 2);
    assert_eq!(inputs[0].current, SimCommand { buttons: 9 });
    assert_eq!(inputs[1].current, SimCommand::default());
}

#[test]
fn control_update() {
    let frame_duration = Duration::from_millis(16);
    let mut ctx = Control::new(2, frame_duration);
    assert!(ctx.update(frame_duration).is_some());

    assert!(ctx
        .update(frame_duration - Duration::from_millis(1))
        .is_none());

    assert!(ctx.update(Duration::from_millis(1)).is_some());

    assert!(ctx.update(2 * frame_duration).is_some());
    assert!(ctx.update(Duration::from_millis(0)).is_some());
    assert!(ctx.update(Duration::from_millis(0)).is_none());
}

#[test]
fn input_size() {
    const CAPACITY: i16 = 2;
    const DELTA: Duration = Duration::from_millis(16);
    const START_FRAME: FrameId = 0;
    let mut ctrl = Control::new(CAPACITY, DELTA);
    let mut world = World::new(START_FRAME, CAPACITY, 0);

    assert_eq!(ctrl.add_actor(START_FRAME), world.add_actor("first"));

    let inputs = ctrl.update(DELTA);
    assert!(inputs.is_some());
    let inputs = inputs.unwrap();
    assert_eq!(inputs.len(), 1);

    let current_frame = world.step(inputs);

    assert_eq!(ctrl.add_actor(current_frame), world.add_actor("second"));

    let inputs = ctrl.update(DELTA);
    assert!(inputs.is_some());
    let inputs = inputs.unwrap();
    assert_eq!(inputs.len(), 2);

    world.step(inputs);
}

#[test]
fn checked_update_is_update_where_the_clock_has_room() {
    let mut ctx = Control::new(1, Duration::from_millis(16));
    assert_eq!(ctx.actor_count(), 0);
    ctx.add_actor(0);
    assert_eq!(ctx.actor_count(), 1);
    assert_eq!(ctx.frame_nanos(), 16_000_000);
    assert_eq!(ctx.checked_update(Duration::from_millis(15)), Some(None));
    assert_eq!(ctx.accumulated_nanos(), 15_000_000);
    let inputs = ctx.checked_update(Duration::from_millis(2)).unwrap().unwrap();
    assert_eq!(inputs.len(), 1);
    assert_eq!(ctx.accumulated_nanos(), 1_000_000);
}

#[test]
fn checked_update_refuses_time_that_the_clock_cannot_hold() {
    let mut ctx = Control::new(1, Duration::from_millis(16));
    assert!(ctx.advance(u128::MAX - 5).is_some());
    let held = ctx.accumulated_nanos();
    assert_eq!(held, u128::MAX - 5 - 16_000_000);
    assert_eq!(ctx.checked_update(Duration::from_nanos(16_000_006)), None);
    assert_eq!(ctx.accumulated_nanos(), held);
    assert!(ctx.checked_update(Duration::from_nanos(16_000_005)).is_some());
    assert_eq!(ctx.accumulated_nanos(), u128::MAX - 16_000_000);
}
