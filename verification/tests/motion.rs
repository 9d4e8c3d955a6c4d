use box_game::input::{Controls, Thrust, Turn};
use box_game::motion::Motion;
use box_game::state::PlayerState;
use std::cell::RefCell;

/// A motion on whole numbers that leaves a trace: each step appends its
/// own digit to the number it is given.
fn digits() -> Motion<
    impl Fn((u32, u32)) -> (u32, u32),
    impl Fn((u32, u32), u32, bool) -> (u32, u32),
    impl Fn(u32, bool) -> u32,
    impl Fn((u32, u32)) -> (u32, u32),
    impl Fn((u32, u32), (u32, u32)) -> (u32, u32),
> {
    Motion {
        decay: |v: (u32, u32)| (v.0 * 10 + 1, v.1 * 10 + 1),
        thrust: |v: (u32, u32), heading: u32, forward: bool| {
            let digit = if forward { 2 } else { 3 };
            (v.0 * 10 + digit, v.1 * 10 + heading)
        },
        turn: |heading: u32, left: bool| heading * 10 + if left { 5 } else { 6 },
        limit: |v: (u32, u32)| (v.0 * 10 + 4, v.1 * 10 + 4),
        displace: |p: (u32, u32), v: (u32, u32)| (p.0 + v.0, p.1 + v.1),
    }
}

fn player() -> PlayerState {
    PlayerState { position: (100_000, 200_000), velocity: (7, 8), rotation: 9 }
}

#[test]
fn step_applies_friction_thrust_cap_and_displacement_in_that_order() {
    let made = Controls { thrust: Thrust::Forward, turn: Turn::Straight };
    let next = digits().step(player(), made);
    // 7 -> friction 71 -> thrust 712 -> cap 7124; thrust saw the old heading 9
    assert_eq!(next.velocity, (7124, 8194));
    assert_eq!(next.position, (107_124, 208_194));
    assert_eq!(next.rotation, 9);
}

#[test]
fn step_brakes_against_the_heading() {
    let made = Controls { thrust: Thrust::Brake, turn: Turn::Straight };
    let next = digits().step(player(), made);
    assert_eq!(next.velocity, (7134, 8194));
    assert_eq!(next.position, (107_134, 208_194));
}

#[test]
fn step_without_thrust_is_friction_and_cap_only() {
    let made = Controls { thrust: Thrust::Coast, turn: Turn::Straight };
    let next = digits().step(player(), made);
    assert_eq!(next.velocity, (714, 814));
    assert_eq!(next.position, (100_714, 200_814));
    assert_eq!(next.rotation, 9);
}

#[test]
fn step_turns_left_and_right() {
    let left = Controls { thrust: Thrust::Coast, turn: Turn::Left };
    assert_eq!(digits().step(player(), left).rotation, 95);
    let right = Controls { thrust: Thrust::Coast, turn: Turn::Right };
    assert_eq!(digits().step(player(), right).rotation, 96);
}

#[test]
fn step_thrusts_with_the_heading_from_before_the_turn() {
    let made = Controls { thrust: Thrust::Forward, turn: Turn::Left };
    let next = digits().step(player(), made);
    assert_eq!(next.velocity, (7124, 8194));
    assert_eq!(next.rotation, 95);
}

#[test]
fn step_displaces_the_old_position_by_the_new_velocity() {
    let seen = RefCell::new(Vec::new());
    let motion = Motion {
        decay: |v: (u32, u32)| v,
        thrust: |v: (u32, u32), _heading: u32, _forward: bool| v,
        turn: |heading: u32, _left: bool| heading,
        limit: |_v: (u32, u32)| (1, 2),
        displace: |p: (u32, u32), v: (u32, u32)| {
            seen.borrow_mut().push((p, v));
            (50, 60)
        },
    };
    let made = Controls { thrust: Thrust::Forward, turn: Turn::Right };
    let next = motion.step(player(), made);
    assert_eq!(*seen.borrow(), vec![((100_000, 200_000), (1, 2))]);
    assert_eq!(next, PlayerState { position: (50, 60), velocity: (1, 2), rotation: 9 });
}

#[test]
fn step_calls_each_function_at_most_once() {
    let calls = RefCell::new(Vec::new());
    let motion = Motion {
        decay: |v: (u32, u32)| {
            calls.borrow_mut().push("decay");
            v
        },
        thrust: |v: (u32, u32), _heading: u32, _forward: bool| {
            calls.borrow_mut().push("thrust");
            v
        },
        turn: |heading: u32, _left: bool| {
            calls.borrow_mut().push("turn");
            heading
        },
        limit: |v: (u32, u32)| {
            calls.borrow_mut().push("limit");
            v
        },
        displace: |p: (u32, u32), _v: (u32, u32)| {
            calls.borrow_mut().push("displace");
            p
        },
    };
    motion.step(player(), Controls { thrust: Thrust::Brake, turn: Turn::Left });
    assert_eq!(*calls.borrow(), vec!["decay", "thrust", "turn", "limit", "displace"]);
    calls.borrow_mut().clear();
    motion.step(player(), Controls { thrust: Thrust::Coast, turn: Turn::Straight });
    assert_eq!(*calls.borrow(), vec!["decay", "limit", "displace"]);
}
