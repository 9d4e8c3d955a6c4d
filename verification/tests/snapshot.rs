use box_game::state::{BoxGameState, PlayerState};

/// A state with the scalars given as numbers.
fn state_of(
    frame: i32,
    positions: &[(f32, f32)],
    velocities: &[(f32, f32)],
    rotations: &[f32],
) -> BoxGameState {
    BoxGameState {
        frame,
        positions: positions.iter().map(|p| (p.0.to_bits(), p.1.to_bits())).collect(),
        velocities: velocities.iter().map(|v| (v.0.to_bits(), v.1.to_bits())).collect(),
        rotations: rotations.iter().map(|r| r.to_bits()).collect(),
    }
}

/// The same state as a value that `bincode` lays out as it lays out a
/// struct with these four fields.
type Plain = (i32, Vec<(f32, f32)>, Vec<(f32, f32)>, Vec<f32>);

fn sample() -> BoxGameState {
    state_of(
        5,
        &[(200.0, 300.0), (600.0, 300.5)],
        &[(0.25, -1.5), (0.0, 7.0)],
        &[0.0, 3.1415927],
    )
}

#[test]
fn new_state_is_at_rest_at_frame_zero() {
    let state = BoxGameState::new(3, &|slot| [(1, 2), (3, 4), (5, 6)][slot]);
    assert_eq!(state.frame, 0);
    assert_eq!(state.positions, vec![(1, 2), (3, 4), (5, 6)]);
    assert_eq!(state.velocities, vec![(0, 0), (0, 0), (0, 0)]);
    assert_eq!(state.rotations, vec![0, 0, 0]);
    assert!(state.is_well_formed());
    assert_eq!(state.num_players(), 3);
    assert_eq!(0.0f32.to_bits(), 0);
}

#[test]
fn new_state_places_each_slot_once_in_order() {
    let asked = std::cell::RefCell::new(Vec::new());
    let state = BoxGameState::new(4, &|slot| {
        asked.borrow_mut().push(slot);
        (slot as u32 * 10, slot as u32 * 10 + 1)
    });
    assert_eq!(*asked.borrow(), vec![0, 1, 2, 3]);
    assert_eq!(state.positions, vec![(0, 1), (10, 11), (20, 21), (30, 31)]);
}

#[test]
fn new_state_without_players_is_empty() {
    let state = BoxGameState::new(0, &|_| (0, 0));
    assert_eq!(state.num_players(), 0);
    assert!(state.is_well_formed());
    assert!(state.velocities.is_empty());
    assert!(state.rotations.is_empty());
}

#[test]
fn player_gathers_one_slot() {
    let state = sample();
    assert_eq!(
        state.player(1),
        PlayerState {
            position: (600.0f32.to_bits(), 300.5f32.to_bits()),
            velocity: (0.0f32.to_bits(), 7.0f32.to_bits()),
            rotation: 3.1415927f32.to_bits(),
        }
    );
}

#[test]
fn state_with_uneven_sequences_is_not_well_formed() {
    let mut state = sample();
    state.rotations.pop();
    assert!(!state.is_well_formed());
    let mut state = sample();
    state.velocities.push((0, 0));
    assert!(!state.is_well_formed());
}

#[test]
fn snapshot_of_empty_state_is_28_bytes() {
    let state = BoxGameState::new(0, &|_| (0, 0));
    assert_eq!(state.to_bytes(), vec![0u8; 28]);
}

#[test]
fn snapshot_has_20_bytes_per_player() {
    assert_eq!(sample().to_bytes().len(), 28 + 2 * 20);
    assert_eq!(BoxGameState::new(7, &|_| (0, 0)).to_bytes().len(), 28 + 7 * 20);
}

#[test]
fn snapshot_bytes_are_little_endian() {
    let state = BoxGameState {
        frame: 0x0102_0304,
        positions: vec![(0x1122_3344, 0x5566_7788)],
        velocities: vec![(1, 2)],
        rotations: vec![0xAABB_CCDD],
    };
    let expected: Vec<u8> = vec![
        0x04, 0x03, 0x02, 0x01, // frame
        1, 0, 0, 0, 0, 0, 0, 0, // one position
        0x44, 0x33, 0x22, 0x11, 0x88, 0x77, 0x66, 0x55, //
        1, 0, 0, 0, 0, 0, 0, 0, // one velocity
        1, 0, 0, 0, 2, 0, 0, 0, //
        1, 0, 0, 0, 0, 0, 0, 0, // one rotation
        0xDD, 0xCC, 0xBB, 0xAA,
    ];
    assert_eq!(state.to_bytes(), expected);
}

#[test]
fn snapshot_of_negative_frame_is_twos_complement() {
    let mut state = BoxGameState::new(0, &|_| (0, 0));
    state.frame = -1;
    assert_eq!(&state.to_bytes()[0..4], &[0xFF, 0xFF, 0xFF, 0xFF]);
    state.frame = -2;
    assert_eq!(&state.to_bytes()[0..4], &[0xFE, 0xFF, 0xFF, 0xFF]);
    state.frame = i32::MIN;
    assert_eq!(&state.to_bytes()[0..4], &[0x00, 0x00, 0x00, 0x80]);
    state.frame = i32::MAX;
    assert_eq!(&state.to_bytes()[0..4], &[0xFF, 0xFF, 0xFF, 0x7F]);
}

#[test]
fn snapshot_is_what_bincode_writes_for_the_numbers() {
    let plain: Plain = (
        5,
        vec![(200.0, 300.0), (600.0, 300.5)],
        vec![(0.25, -1.5), (0.0, 7.0)],
        vec![0.0, 3.1415927],
    );
    assert_eq!(sample().to_bytes(), bincode::serialize(&plain).unwrap());
}

#[test]
fn snapshot_is_read_by_bincode_as_the_numbers() {
    let plain: Plain = bincode::deserialize(&sample().to_bytes()).unwrap();
    assert_eq!(plain.0, 5);
    assert_eq!(plain.1, vec![(200.0, 300.0), (600.0, 300.5)]);
    assert_eq!(plain.2, vec![(0.25, -1.5), (0.0, 7.0)]);
    assert_eq!(plain.3, vec![0.0, 3.1415927]);
}

#[test]
fn from_bytes_reads_what_bincode_wrote() {
    let plain: Plain = (-7, vec![(1.5, 2.5)], vec![(-0.0, 1e-40)], vec![6.2831855]);
    let bytes = bincode::serialize(&plain).unwrap();
    let state = BoxGameState::from_bytes(&bytes).unwrap();
    assert_eq!(state, state_of(-7, &[(1.5, 2.5)], &[(-0.0, 1e-40)], &[6.2831855]));
}

#[test]
fn from_bytes_inverts_to_bytes() {
    let state = sample();
    assert_eq!(BoxGameState::from_bytes(&state.to_bytes()), Some(state));
}

#[test]
fn from_bytes_keeps_every_bit_pattern() {
    // Not-a-number payloads, infinities and the negative zero survive.
    let state = BoxGameState {
        frame: i32::MIN,
        positions: vec![(0x7FC0_0001, 0xFFFF_FFFF), (0x8000_0000, 0x7F80_0000)],
        velocities: vec![(0xFF80_0000, 0x0000_0001), (0, u32::MAX)],
        rotations: vec![0x7FFF_FFFF, 0x0080_0000],
    };
    assert_eq!(BoxGameState::from_bytes(&state.to_bytes()), Some(state));
}

#[test]
fn from_bytes_ignores_trailing_bytes() {
    let state = sample();
    let mut bytes = state.to_bytes();
    bytes.extend_from_slice(&[1, 2, 3, 4, 5]);
    assert_eq!(BoxGameState::from_bytes(&bytes), Some(state));
}

#[test]
fn from_bytes_of_every_proper_prefix_is_none() {
    let bytes = sample().to_bytes();
    for length in 0..bytes.len() {
        assert_eq!(BoxGameState::from_bytes(&bytes[..length]), None);
    }
}

#[test]
fn from_bytes_of_empty_buffer_is_none() {
    assert_eq!(BoxGameState::from_bytes(&[]), None);
}

#[test]
fn from_bytes_rejects_a_count_that_the_buffer_cannot_hold() {
    let mut bytes = sample().to_bytes();
    bytes[4] = 3; // three positions announced, two present
    assert_eq!(BoxGameState::from_bytes(&bytes), None);
    let mut bytes = BoxGameState::new(0, &|_| (0, 0)).to_bytes();
    for byte in &mut bytes[4..12] {
        *byte = 0xFF; // more positions than any buffer holds
    }
    assert_eq!(BoxGameState::from_bytes(&bytes), None);
    assert!(bincode::deserialize::<Plain>(&bytes).is_err());
}

#[test]
fn from_bytes_agrees_with_bincode_on_uneven_sections() {
    let plain: Plain = (3, vec![(1.0, 2.0)], vec![], vec![0.5, 0.25, 0.125]);
    let bytes = bincode::serialize(&plain).unwrap();
    let state = BoxGameState::from_bytes(&bytes).unwrap();
    assert_eq!(state, state_of(3, &[(1.0, 2.0)], &[], &[0.5, 0.25, 0.125]));
    assert!(!state.is_well_formed());
}
