//! Player input: the control bitmask, its transport encoding, and what the
//! simulation makes of it.

use crate::wire::{le_bytes, le_value, read_u8, write_u8};
use vstd::prelude::*;

verus! {

/// Frame number that marks an input frame as carrying no input.
pub const NULL_FRAME: i32 = -1;

/// Bit of the control mask: thrust forward.
pub const INPUT_UP: u8 = 1;

/// Bit of the control mask: brake.
pub const INPUT_DOWN: u8 = 2;

/// Bit of the control mask: turn left.
pub const INPUT_LEFT: u8 = 4;

/// Bit of the control mask: turn right.
pub const INPUT_RIGHT: u8 = 8;

/// The mask that stands in for a player without input: such a player spins.
pub const FALLBACK_INPUT: u8 = 4;

/// One player's input for one frame, as the session hands it over.
#[derive(Clone, Debug, PartialEq, Eq)]
pub struct InputFrame {
    /// The frame the input was made for, or `NULL_FRAME`.
    pub frame: i32,
    /// The encoded control mask.
    pub buffer: Vec<u8>,
}

/// What a player does to its speed in one frame.
#[derive(Clone, Copy, Debug, PartialEq, Eq, Structural)]
pub enum Thrust {
    /// Neither or both of thrust and brake: friction alone acts.
    Coast,
    /// Accelerate along the heading.
    Forward,
    /// Accelerate against the heading.
    Brake,
}

/// What a player does to its heading in one frame.
#[derive(Clone, Copy, Debug, PartialEq, Eq, Structural)]
pub enum Turn {
    /// Neither or both of left and right: the heading stays.
    Straight,
    /// Turn by one angular step to the left.
    Left,
    /// Turn by one angular step to the right.
    Right,
}

/// The decisions that a control mask stands for.
#[derive(Clone, Copy, Debug, PartialEq, Eq, Structural)]
pub struct Controls {
    pub thrust: Thrust,
    pub turn: Turn,
}

/// Whether `input` asserts the control `flag`.
pub open spec fn asserts(input: u8, flag: u8) -> bool {
    input & flag != 0
}

/// Thrust needs exactly one of "up" and "down".
pub open spec fn thrust_of(input: u8) -> Thrust {
    if asserts(input, INPUT_UP) && !asserts(input, INPUT_DOWN) {
        Thrust::Forward
    } else if !asserts(input, INPUT_UP) && asserts(input, INPUT_DOWN) {
        Thrust::Brake
    } else {
        Thrust::Coast
    }
}

/// Turning needs exactly one of "left" and "right".
pub open spec fn turn_of(input: u8) -> Turn {
    if asserts(input, INPUT_LEFT) && !asserts(input, INPUT_RIGHT) {
        Turn::Left
    } else if !asserts(input, INPUT_LEFT) && asserts(input, INPUT_RIGHT) {
        Turn::Right
    } else {
        Turn::Straight
    }
}

/// The decisions that `input` stands for.
pub open spec fn controls_of(input: u8) -> Controls {
    Controls { thrust: thrust_of(input), turn: turn_of(input) }
}

/// The mask of a keyboard state: the keys are, in order, up, left, down
/// and right.
pub open spec fn mask_of(keys: Seq<bool>) -> u8 {
    (if keys[0] { INPUT_UP } else { 0u8 }) | (if keys[1] { INPUT_LEFT } else { 0u8 }) | (if keys[2] {
        INPUT_DOWN
    } else {
        0u8
    }) | (if keys[3] { INPUT_RIGHT } else { 0u8 })
}

/// The transport encoding of a control mask: one byte, the mask itself.
pub open spec fn encoded_input(input: u8) -> Seq<u8> {
    seq![input]
}

/// The control mask that a transport buffer holds: its first byte, if it
/// has one.
pub open spec fn decoded_input(bytes: Seq<u8>) -> Option<u8> {
    if bytes.len() >= 1 {
        Some(bytes[0])
    } else {
        None
    }
}

/// The control mask that an input frame contributes, if it has one: the
/// fallback for a frame without input, whatever its buffer holds, and else
/// what its buffer decodes to.
pub open spec fn resolved(frame: InputFrame) -> Option<u8> {
    if frame.frame == NULL_FRAME {
        Some(FALLBACK_INPUT)
    } else {
        decoded_input(frame.buffer@)
    }
}

/// Turns a control mask into the decisions it stands for.
pub fn controls(input: u8) -> (out: Controls)
    ensures
        out == controls_of(input),
{
    let up = input & INPUT_UP != 0;
    let down = input & INPUT_DOWN != 0;
    let left = input & INPUT_LEFT != 0;
    let right = input & INPUT_RIGHT != 0;
    let thrust = if up && !down {
        Thrust::Forward
    } else if !up && down {
        Thrust::Brake
    } else {
        Thrust::Coast
    };
    let turn = if left && !right {
        Turn::Left
    } else if !left && right {
        Turn::Right
    } else {
        Turn::Straight
    };
    Controls { thrust, turn }
}

/// Encodes a control mask for transport: one byte, the mask itself.
pub fn encode_input(input: u8) -> (bytes: Vec<u8>)
    ensures
        bytes@ == encoded_input(input),
{
    proof {
        reveal_with_fuel(le_bytes, 2);
    }
    match write_u8(input) {
        Ok(bytes) => bytes,
        Err(_) => vstd::pervasive::unreached(),
    }
}

/// Recovers a control mask from its transport encoding.  An empty buffer
/// holds no mask; bytes after the first are not looked at.
pub fn decode_input(bytes: &[u8]) -> (out: Option<u8>)
    ensures
        out == decoded_input(bytes@),
{
    proof {
        reveal_with_fuel(le_value, 2);
    }
    match read_u8(bytes) {
        Ok(input) => Some(input),
        Err(_) => None,
    }
}

/// The control mask for a keyboard state, ready for transport.
pub fn encode_keys(keys: &[bool; 4]) -> (bytes: Vec<u8>)
    ensures
        bytes@ == encoded_input(mask_of(keys@)),
{
    let mut input: u8 = 0;
    if keys[0] {
        input |= INPUT_UP;
    }
    if keys[1] {
        input |= INPUT_LEFT;
    }
    if keys[2] {
        input |= INPUT_DOWN;
    }
    if keys[3] {
        input |= INPUT_RIGHT;
    }
    proof {
        assert(0u8 | 1u8 == 1u8) by (bit_vector);
        assert(forall|x: u8| #[trigger] (x | 0u8) == x) by (bit_vector);
    }
    encode_input(input)
}

/// The control mask that an input frame contributes.  A frame without
/// input always yields the fallback; its buffer is never decoded.
pub fn resolve(frame: &InputFrame) -> (out: Option<u8>)
    ensures
        out == resolved(*frame),
        frame.frame == NULL_FRAME ==> out == Some(FALLBACK_INPUT),
{
    if frame.frame == NULL_FRAME {
        Some(FALLBACK_INPUT)
    } else {
        decode_input(frame.buffer.as_slice())
    }
}

/// Decoding what was encoded gives the mask back, whatever follows it in
/// the buffer and whatever bits the mask has set.
pub proof fn lemma_input_round_trip(input: u8, rest: Seq<u8>)
    ensures
        decoded_input(encoded_input(input) + rest) == Some(input),
{
}

/// A player without input turns left and does not thrust, whatever its
/// buffer holds.
pub proof fn lemma_fallback_spins(frame: InputFrame)
    requires
        frame.frame == NULL_FRAME,
    ensures
        resolved(frame) == Some(FALLBACK_INPUT),
        controls_of(FALLBACK_INPUT) == (Controls { thrust: Thrust::Coast, turn: Turn::Left }),
{
    assert(4u8 & 1u8 == 0 && 4u8 & 2u8 == 0 && 4u8 & 4u8 != 0 && 4u8 & 8u8 == 0) by (bit_vector);
}

/// A mask that asserts nothing leaves the player to friction alone: no
/// thrust and no turn.
pub proof fn lemma_idle_coasts()
    ensures
        controls_of(0) == (Controls { thrust: Thrust::Coast, turn: Turn::Straight }),
{
    assert(0u8 & 1u8 == 0 && 0u8 & 2u8 == 0 && 0u8 & 4u8 == 0 && 0u8 & 8u8 == 0) by (bit_vector);
}

/// The mask of a keyboard state asserts exactly the controls whose keys are
/// down.
pub proof fn lemma_mask_reflects_keys(keys: Seq<bool>)
    requires
        keys.len() == 4,
    ensures
        asserts(mask_of(keys), INPUT_UP) == keys[0],
        asserts(mask_of(keys), INPUT_LEFT) == keys[1],
        asserts(mask_of(keys), INPUT_DOWN) == keys[2],
        asserts(mask_of(keys), INPUT_RIGHT) == keys[3],
{
    let up = if keys[0] { 1u8 } else { 0u8 };
    let left = if keys[1] { 4u8 } else { 0u8 };
    let down = if keys[2] { 2u8 } else { 0u8 };
    let right = if keys[3] { 8u8 } else { 0u8 };
    let mask = up | left | down | right;
    assert(((mask & 1u8 != 0) == (up == 1u8)) && ((mask & 4u8 != 0) == (left == 4u8)) && ((mask
        & 2u8 != 0) == (down == 2u8)) && ((mask & 8u8 != 0) == (right == 8u8))) by (bit_vector)
        requires
            mask == up | left | down | right,
            up == 0u8 || up == 1u8,
            left == 0u8 || left == 4u8,
            down == 0u8 || down == 2u8,
            right == 0u8 || right == 8u8,
    ;
}

/// Opposed keys cancel: the controls of a keyboard state thrust forward
/// exactly when "up" is down and "down" is not, and likewise for the other
/// decisions.
pub proof fn lemma_keys_decide(keys: Seq<bool>)
    requires
        keys.len() == 4,
    ensures
        thrust_of(mask_of(keys)) == if keys[0] && !keys[2] {
            Thrust::Forward
        } else if !keys[0] && keys[2] {
            Thrust::Brake
        } else {
            Thrust::Coast
        },
        turn_of(mask_of(keys)) == if keys[1] && !keys[3] {
            Turn::Left
        } else if !keys[1] && keys[3] {
            Turn::Right
        } else {
            Turn::Straight
        },
{
    lemma_mask_reflects_keys(keys);
}

} // verus!
