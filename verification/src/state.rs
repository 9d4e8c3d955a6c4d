//! The simulation state and its snapshot format.
//!
//! A snapshot is the frame number in four bytes, then three sections: the
//! positions, the velocities and the rotations.  Each section is a count of
//! items in eight bytes followed by the items, four bytes to a scalar, two
//! scalars to a position or velocity.  All numbers are little-endian.

use crate::wire::{
    count_at, get_i32, get_u32, get_u64, i32_bits, int_at, le_bytes, le_value,
    lemma_count_written, lemma_int_written, lemma_le_bytes_len, lemma_le_bytes_of_value,
    lemma_le_value_bound, lemma_span_values, lemma_word_written, put_i32, put_u32, put_u64,
    word_at,
};
use vstd::prelude::*;

verus! {

/// The kinematic state of one player.  Each scalar is the bit pattern of a
/// single-precision number.
#[derive(Clone, Copy, Debug, PartialEq, Eq)]
pub struct PlayerState {
    /// Position, x then y.
    pub position: (u32, u32),
    /// Velocity, x then y.
    pub velocity: (u32, u32),
    /// Heading in radians.
    pub rotation: u32,
}

/// Everything the simulation knows at one frame.
#[derive(Clone, Debug, PartialEq, Eq)]
pub struct BoxGameState {
    /// The number of the frame.
    pub frame: i32,
    /// One position per player.
    pub positions: Vec<(u32, u32)>,
    /// One velocity per player.
    pub velocities: Vec<(u32, u32)>,
    /// One heading per player.
    pub rotations: Vec<u32>,
}

/// The mathematical value of a `BoxGameState`.
pub struct StateView {
    pub frame: i32,
    pub positions: Seq<(u32, u32)>,
    pub velocities: Seq<(u32, u32)>,
    pub rotations: Seq<u32>,
}

impl StateView {
    /// The three sequences describe the same players.
    pub open spec fn wf(self) -> bool {
        &&& self.velocities.len() == self.positions.len()
        &&& self.rotations.len() == self.positions.len()
    }

    /// The number of players of a well-formed state.
    pub open spec fn players(self) -> nat {
        self.positions.len()
    }

    /// The state of the player in slot `index`.
    pub open spec fn player(self, index: int) -> PlayerState {
        PlayerState {
            position: self.positions[index],
            velocity: self.velocities[index],
            rotation: self.rotations[index],
        }
    }

    /// The state that starts a session: frame zero, every player at rest at
    /// its place, heading along the x axis.
    pub open spec fn initial(positions: Seq<(u32, u32)>) -> StateView {
        StateView {
            frame: 0,
            positions,
            velocities: Seq::new(positions.len(), |i: int| (0u32, 0u32)),
            rotations: Seq::new(positions.len(), |i: int| 0u32),
        }
    }
}

impl View for BoxGameState {
    type V = StateView;

    open spec fn view(&self) -> StateView {
        StateView {
            frame: self.frame,
            positions: self.positions@,
            velocities: self.velocities@,
            rotations: self.rotations@,
        }
    }
}

/// The scalars of a sequence of pairs, in order.
pub open spec fn flatten(pairs: Seq<(u32, u32)>) -> Seq<u32> {
    Seq::new(
        2 * pairs.len(),
        |i: int|
            if i % 2 == 0 {
                pairs[i / 2].0
            } else {
                pairs[i / 2].1
            },
    )
}

/// The bytes of a run of scalars: four little-endian bytes each.
pub open spec fn words_bytes(words: Seq<u32>) -> Seq<u8> {
    Seq::new(4 * words.len(), |i: int| le_bytes(words[i / 4] as nat, 4)[i % 4])
}

/// The bytes of a section: the count of its items, then its scalars.
pub open spec fn section_bytes(count: nat, words: Seq<u32>) -> Seq<u8> {
    le_bytes(count, 8) + words_bytes(words)
}

/// The snapshot of a state.
pub open spec fn snapshot_bytes(state: StateView) -> Seq<u8> {
    le_bytes(i32_bits(state.frame), 4) + section_bytes(
        state.positions.len(),
        flatten(state.positions),
    ) + section_bytes(state.velocities.len(), flatten(state.velocities)) + section_bytes(
        state.rotations.len(),
        state.rotations,
    )
}

/// Whether `bytes` holds a whole section at `at`, with `width` bytes to an
/// item.
pub open spec fn section_fits(bytes: Seq<u8>, at: int, width: int) -> bool {
    &&& at + 8 <= bytes.len()
    &&& at + 8 + width * count_at(bytes, at) <= bytes.len()
}

/// The place just behind the section at `at`.
pub open spec fn section_end(bytes: Seq<u8>, at: int, width: int) -> int {
    at + 8 + width * count_at(bytes, at)
}

/// The `count` scalars that `bytes` holds from `at` on.
pub open spec fn words_at(bytes: Seq<u8>, at: int, count: nat) -> Seq<u32> {
    Seq::new(count, |k: int| word_at(bytes, at + 4 * k))
}

/// The `count` pairs that `bytes` holds from `at` on.
pub open spec fn pairs_at(bytes: Seq<u8>, at: int, count: nat) -> Seq<(u32, u32)> {
    Seq::new(count, |k: int| (word_at(bytes, at + 8 * k), word_at(bytes, at + 8 * k + 4)))
}

/// The state that a buffer holds, if it holds a whole one.  Bytes behind
/// the state are not looked at.
pub open spec fn parsed(bytes: Seq<u8>) -> Option<StateView> {
    let velocities_at = section_end(bytes, 4, 8);
    let rotations_at = section_end(bytes, velocities_at, 8);
    if bytes.len() >= 4 && section_fits(bytes, 4, 8) && section_fits(bytes, velocities_at, 8)
        && section_fits(bytes, rotations_at, 4) {
        Some(
            StateView {
                frame: int_at(bytes, 0),
                positions: pairs_at(bytes, 12, count_at(bytes, 4) as nat),
                velocities: pairs_at(
                    bytes,
                    velocities_at + 8,
                    count_at(bytes, velocities_at) as nat,
                ),
                rotations: words_at(bytes, rotations_at + 8, count_at(bytes, rotations_at) as nat),
            },
        )
    } else {
        None
    }
}

/// The bytes of a run that grew by one scalar are the bytes of the run
/// followed by the bytes of that scalar.
pub proof fn lemma_words_bytes_push(words: Seq<u32>, word: u32)
    ensures
        words_bytes(words.push(word)) == words_bytes(words) + le_bytes(word as nat, 4),
{
    lemma_le_bytes_len(word as nat, 4);
    let grown = words_bytes(words.push(word));
    let joined = words_bytes(words) + le_bytes(word as nat, 4);
    assert(grown.len() == joined.len());
    assert forall|i: int| 0 <= i < grown.len() implies grown[i] == joined[i] by {
        if i < 4 * words.len() {
            assert(words.push(word)[i / 4] == words[i / 4]);
        } else {
            assert(i / 4 == words.len());
            assert(i % 4 == i - 4 * words.len());
        }
    }
    assert(grown =~= joined);
}

/// A run of scalars that was written between `before` and `after` is read
/// back at the place where it starts.
pub proof fn lemma_words_written(before: Seq<u8>, words: Seq<u32>, after: Seq<u8>)
    ensures
        words_at(before + words_bytes(words) + after, before.len() as int, words.len()) == words,
{
    let all = before + words_bytes(words) + after;
    let read = words_at(all, before.len() as int, words.len());
    assert forall|k: int| 0 <= k < words.len() implies read[k] == words[k] by {
        let at = before.len() + 4 * k;
        let piece = all.subrange(at, at + 4);
        let written = le_bytes(words[k] as nat, 4);
        lemma_le_bytes_len(words[k] as nat, 4);
        assert forall|j: int| 0 <= j < 4 implies piece[j] == written[j] by {
            assert(piece[j] == words_bytes(words)[4 * k + j]);
            assert((4 * k + j) / 4 == k);
            assert((4 * k + j) % 4 == j);
        }
        assert(piece =~= written);
        lemma_word_written(Seq::empty(), words[k], Seq::empty());
        assert(Seq::<u8>::empty() + written + Seq::<u8>::empty() =~= written);
        assert(written.subrange(0, 4) =~= written);
    }
    assert(read =~= words);
}

/// A run of pairs that was written between `before` and `after` is read
/// back at the place where it starts.
pub proof fn lemma_pairs_written(before: Seq<u8>, pairs: Seq<(u32, u32)>, after: Seq<u8>)
    ensures
        pairs_at(before + words_bytes(flatten(pairs)) + after, before.len() as int, pairs.len())
            == pairs,
{
    let words = flatten(pairs);
    let all = before + words_bytes(words) + after;
    lemma_words_written(before, words, after);
    let scalars = words_at(all, before.len() as int, words.len());
    let read = pairs_at(all, before.len() as int, pairs.len());
    assert forall|k: int| 0 <= k < pairs.len() implies read[k] == pairs[k] by {
        assert(scalars[2 * k] == words[2 * k]);
        assert(scalars[2 * k + 1] == words[2 * k + 1]);
        assert(before.len() + 4 * (2 * k) == before.len() + 8 * k);
        assert(before.len() + 4 * (2 * k + 1) == before.len() + 8 * k + 4);
        assert((2 * k) / 2 == k && (2 * k) % 2 == 0);
        assert((2 * k + 1) / 2 == k && (2 * k + 1) % 2 == 1);
    }
    assert(read =~= pairs);
}

/// The length of a snapshot: 28 bytes and 20 for each player.
pub proof fn lemma_snapshot_len(state: StateView)
    ensures
        snapshot_bytes(state).len() == 28 + 8 * state.positions.len() + 8 * state.velocities.len()
            + 4 * state.rotations.len(),
{
    lemma_le_bytes_len(i32_bits(state.frame), 4);
    lemma_le_bytes_len(state.positions.len(), 8);
    lemma_le_bytes_len(state.velocities.len(), 8);
    lemma_le_bytes_len(state.rotations.len(), 8);
}

/// Parsing a snapshot gives the state back, whatever follows the snapshot
/// in the buffer.
#[verifier::rlimit(50)]
pub proof fn lemma_snapshot_round_trip(state: StateView, rest: Seq<u8>)
    requires
        state.positions.len() <= u64::MAX,
        state.velocities.len() <= u64::MAX,
        state.rotations.len() <= u64::MAX,
    ensures
        parsed(snapshot_bytes(state) + rest) == Some(state),
{
    let bytes = snapshot_bytes(state) + rest;
    let frame = le_bytes(i32_bits(state.frame), 4);
    let n1 = state.positions.len() as u64;
    let n2 = state.velocities.len() as u64;
    let n3 = state.rotations.len() as u64;
    let c1 = le_bytes(n1 as nat, 8);
    let c2 = le_bytes(n2 as nat, 8);
    let c3 = le_bytes(n3 as nat, 8);
    let w1 = words_bytes(flatten(state.positions));
    let w2 = words_bytes(flatten(state.velocities));
    let w3 = words_bytes(state.rotations);
    lemma_le_bytes_len(i32_bits(state.frame), 4);
    lemma_le_bytes_len(n1 as nat, 8);
    lemma_le_bytes_len(n2 as nat, 8);
    lemma_le_bytes_len(n3 as nat, 8);
    let velocities_at = 12 + 8 * n1;
    let rotations_at = velocities_at + 8 + 8 * n2;
    assert(bytes =~= Seq::<u8>::empty() + frame + (c1 + w1 + c2 + w2 + c3 + w3 + rest));
    lemma_int_written(Seq::empty(), state.frame, c1 + w1 + c2 + w2 + c3 + w3 + rest);

    assert(bytes =~= frame + c1 + (w1 + c2 + w2 + c3 + w3 + rest));
    lemma_count_written(frame, n1, w1 + c2 + w2 + c3 + w3 + rest);
    assert(bytes =~= (frame + c1) + w1 + (c2 + w2 + c3 + w3 + rest));
    lemma_pairs_written(frame + c1, state.positions, c2 + w2 + c3 + w3 + rest);

    assert(bytes =~= (frame + c1 + w1) + c2 + (w2 + c3 + w3 + rest));
    lemma_count_written(frame + c1 + w1, n2, w2 + c3 + w3 + rest);
    assert(bytes =~= (frame + c1 + w1 + c2) + w2 + (c3 + w3 + rest));
    lemma_pairs_written(frame + c1 + w1 + c2, state.velocities, c3 + w3 + rest);

    assert(bytes =~= (frame + c1 + w1 + c2 + w2) + c3 + (w3 + rest));
    lemma_count_written(frame + c1 + w1 + c2 + w2, n3, w3 + rest);
    assert(bytes =~= (frame + c1 + w1 + c2 + w2 + c3) + w3 + rest);
    lemma_words_written(frame + c1 + w1 + c2 + w2 + c3, state.rotations, rest);

    assert(section_end(bytes, 4, 8) == velocities_at);
    assert(section_end(bytes, velocities_at as int, 8) == rotations_at);
    let back = parsed(bytes)->Some_0;
    assert(parsed(bytes) is Some);
    assert(back.positions =~= state.positions);
    assert(back.velocities =~= state.velocities);
    assert(back.rotations =~= state.rotations);
}

/// The bytes that a run of scalars was read from are the bytes of the run.
pub proof fn lemma_words_read(bytes: Seq<u8>, at: int, count: nat)
    requires
        0 <= at,
        at + 4 * count <= bytes.len(),
    ensures
        words_bytes(words_at(bytes, at, count)) == bytes.subrange(at, at + 4 * count),
{
    let words = words_at(bytes, at, count);
    let back = words_bytes(words);
    let there = bytes.subrange(at, at + 4 * count);
    lemma_span_values();
    assert forall|i: int| 0 <= i < 4 * count implies back[i] == there[i] by {
        let k = i / 4;
        let piece = bytes.subrange(at + 4 * k, at + 4 * k + 4);
        lemma_le_value_bound(piece);
        lemma_le_bytes_of_value(piece);
        assert(words[k] as nat == le_value(piece));
        assert(piece[i % 4] == bytes[at + 4 * k + i % 4]);
    }
    assert(back =~= there);
}

/// The scalars of the pairs that a buffer holds at a place are the
/// scalars that it holds there.
pub proof fn lemma_pairs_read(bytes: Seq<u8>, at: int, count: nat)
    ensures
        flatten(pairs_at(bytes, at, count)) == words_at(bytes, at, 2 * count),
{
    let flat = flatten(pairs_at(bytes, at, count));
    let words = words_at(bytes, at, 2 * count);
    assert forall|i: int| 0 <= i < 2 * count implies flat[i] == words[i] by {
        let k = i / 2;
        if i % 2 == 0 {
            assert(at + 8 * k == at + 4 * i);
        } else {
            assert(at + 8 * k + 4 == at + 4 * i);
        }
    }
    assert(flat =~= words);
}

/// A buffer that holds a state starts with the snapshot of that state: the
/// format has one encoding for each state.
#[verifier::rlimit(50)]
pub proof fn lemma_parsed_is_written(bytes: Seq<u8>)
    requires
        parsed(bytes) is Some,
    ensures
        snapshot_bytes(parsed(bytes)->Some_0).is_prefix_of(bytes),
{
    let state = parsed(bytes)->Some_0;
    let n1 = count_at(bytes, 4);
    let velocities_at = section_end(bytes, 4, 8);
    let n2 = count_at(bytes, velocities_at);
    let rotations_at = section_end(bytes, velocities_at, 8);
    let n3 = count_at(bytes, rotations_at);
    let end = section_end(bytes, rotations_at, 4);
    lemma_span_values();

    let head = bytes.subrange(0, 4);
    lemma_le_value_bound(head);
    lemma_le_bytes_of_value(head);
    assert(i32_bits(state.frame) == le_value(head));

    let c1 = bytes.subrange(4, 12);
    lemma_le_value_bound(c1);
    lemma_le_bytes_of_value(c1);
    lemma_pairs_read(bytes, 12, n1 as nat);
    lemma_words_read(bytes, 12, 2 * (n1 as nat));

    let c2 = bytes.subrange(velocities_at, velocities_at + 8);
    lemma_le_value_bound(c2);
    lemma_le_bytes_of_value(c2);
    lemma_pairs_read(bytes, velocities_at + 8, n2 as nat);
    lemma_words_read(bytes, velocities_at + 8, 2 * (n2 as nat));

    let c3 = bytes.subrange(rotations_at, rotations_at + 8);
    lemma_le_value_bound(c3);
    lemma_le_bytes_of_value(c3);
    lemma_words_read(bytes, rotations_at + 8, n3 as nat);

    let written = snapshot_bytes(state);
    assert(written =~= head + c1 + bytes.subrange(12, velocities_at) + c2 + bytes.subrange(
        velocities_at + 8,
        rotations_at,
    ) + c3 + bytes.subrange(rotations_at + 8, end));
    assert(written =~= bytes.subrange(0, end));
}

/// Appends a run of scalars to `buffer`.
fn put_words(buffer: &mut Vec<u8>, words: &Vec<u32>)
    ensures
        final(buffer)@ == old(buffer)@ + words_bytes(words@),
{
    let ghost start = buffer@;
    let mut index: usize = 0;
    proof {
        assert(words@.take(0) =~= Seq::<u32>::empty());
        assert(buffer@ =~= start + words_bytes(words@.take(0)));
    }
    while index < words.len()
        invariant
            index <= words.len(),
            buffer@ == start + words_bytes(words@.take(index as int)),
        decreases words.len() - index,
    {
        put_u32(buffer, words[index]);
        proof {
            let done = words@.take(index as int);
            assert(words@.take(index + 1) =~= done.push(words@[index as int]));
            lemma_words_bytes_push(done, words@[index as int]);
            assert(buffer@ =~= start + words_bytes(words@.take(index + 1)));
        }
        index += 1;
    }
    proof {
        assert(words@.take(index as int) =~= words@);
    }
}

/// Appends a run of pairs to `buffer`, scalar by scalar.
fn put_pairs(buffer: &mut Vec<u8>, pairs: &Vec<(u32, u32)>)
    ensures
        final(buffer)@ == old(buffer)@ + words_bytes(flatten(pairs@)),
{
    let ghost start = buffer@;
    let mut index: usize = 0;
    proof {
        assert(flatten(pairs@.take(0)) =~= Seq::<u32>::empty());
        assert(buffer@ =~= start + words_bytes(flatten(pairs@.take(0))));
    }
    while index < pairs.len()
        invariant
            index <= pairs.len(),
            buffer@ == start + words_bytes(flatten(pairs@.take(index as int))),
        decreases pairs.len() - index,
    {
        let pair = pairs[index];
        put_u32(buffer, pair.0);
        put_u32(buffer, pair.1);
        proof {
            let done = flatten(pairs@.take(index as int));
            let grown = flatten(pairs@.take(index + 1));
            assert(grown =~= done.push(pair.0).push(pair.1));
            lemma_words_bytes_push(done, pair.0);
            lemma_words_bytes_push(done.push(pair.0), pair.1);
            assert(buffer@ =~= start + words_bytes(grown));
        }
        index += 1;
    }
    proof {
        assert(pairs@.take(index as int) =~= pairs@);
    }
}

/// Reads the count of the section at `at`, if the buffer holds the whole
/// section.
fn get_count(bytes: &[u8], at: usize, width: usize) -> (out: Option<usize>)
    requires
        at <= bytes@.len(),
        width == 4 || width == 8,
    ensures
        out is Some <==> section_fits(bytes@, at as int, width as int),
        out is Some ==> out->Some_0 == count_at(bytes@, at as int),
{
    match get_u64(bytes, at) {
        None => None,
        Some(count) => {
            let room = (bytes.len() - at - 8) / width;
            if count <= room as u64 {
                Some(count as usize)
            } else {
                None
            }
        },
    }
}

/// Reads `count` scalars from `at` on.
fn get_words(bytes: &[u8], at: usize, count: usize) -> (out: Vec<u32>)
    requires
        at + 4 * count <= bytes@.len() <= usize::MAX,
    ensures
        out@ == words_at(bytes@, at as int, count as nat),
{
    let mut words: Vec<u32> = Vec::new();
    let mut index: usize = 0;
    while index < count
        invariant
            index <= count,
            at + 4 * count <= bytes@.len() <= usize::MAX,
            words@ == words_at(bytes@, at as int, index as nat),
        decreases count - index,
    {
        let word = get_u32(bytes, at + 4 * index).unwrap();
        words.push(word);
        assert(words@ =~= words_at(bytes@, at as int, (index + 1) as nat));
        index += 1;
    }
    words
}

/// Reads `count` pairs from `at` on.
fn get_pairs(bytes: &[u8], at: usize, count: usize) -> (out: Vec<(u32, u32)>)
    requires
        at + 8 * count <= bytes@.len() <= usize::MAX,
    ensures
        out@ == pairs_at(bytes@, at as int, count as nat),
{
    let mut pairs: Vec<(u32, u32)> = Vec::new();
    let mut index: usize = 0;
    while index < count
        invariant
            index <= count,
            at + 8 * count <= bytes@.len() <= usize::MAX,
            pairs@ == pairs_at(bytes@, at as int, index as nat),
        decreases count - index,
    {
        let x = get_u32(bytes, at + 8 * index).unwrap();
        let y = get_u32(bytes, at + 8 * index + 4).unwrap();
        pairs.push((x, y));
        assert(pairs@ =~= pairs_at(bytes@, at as int, (index + 1) as nat));
        index += 1;
    }
    pairs
}

impl BoxGameState {
    /// The state that starts a session of `players` players: frame zero,
    /// each player at the place that `place` gives for its slot, every
    /// velocity and heading zero.
    pub fn new<F: Fn(usize) -> (u32, u32)>(players: usize, place: &F) -> (state: BoxGameState)
        requires
            forall|slot: usize| slot < players ==> call_requires(*place, (slot,)),
        ensures
            state@ == StateView::initial(state@.positions),
            state@.wf(),
            state@.players() == players,
            forall|slot: usize|
                slot < players ==> call_ensures(
                    *place,
                    (slot,),
                    #[trigger] state@.positions[slot as int],
                ),
    {
        let mut positions: Vec<(u32, u32)> = Vec::new();
        let mut velocities: Vec<(u32, u32)> = Vec::new();
        let mut rotations: Vec<u32> = Vec::new();
        let mut slot: usize = 0;
        while slot < players
            invariant
                slot <= players,
                forall|slot: usize| slot < players ==> call_requires(*place, (slot,)),
                positions@.len() == slot,
                forall|done: usize|
                    done < slot ==> call_ensures(
                        *place,
                        (done,),
                        #[trigger] positions@[done as int],
                    ),
                velocities@ == Seq::new(slot as nat, |i: int| (0u32, 0u32)),
                rotations@ == Seq::new(slot as nat, |i: int| 0u32),
            decreases players - slot,
        {
            positions.push(place(slot));
            velocities.push((0, 0));
            rotations.push(0);
            assert(velocities@ =~= Seq::new((slot + 1) as nat, |i: int| (0u32, 0u32)));
            assert(rotations@ =~= Seq::new((slot + 1) as nat, |i: int| 0u32));
            slot += 1;
        }
        BoxGameState { frame: 0, positions, velocities, rotations }
    }

    /// Whether the three sequences describe the same players.
    pub fn is_well_formed(&self) -> (out: bool)
        ensures
            out == self@.wf(),
    {
        self.velocities.len() == self.positions.len() && self.rotations.len()
            == self.positions.len()
    }

    /// The number of players.
    pub fn num_players(&self) -> (out: usize)
        ensures
            out == self@.players(),
    {
        self.positions.len()
    }

    /// The state of the player in slot `index`.
    pub fn player(&self, index: usize) -> (out: PlayerState)
        requires
            self@.wf(),
            index < self@.players(),
        ensures
            out == self@.player(index as int),
    {
        PlayerState {
            position: self.positions[index],
            velocity: self.velocities[index],
            rotation: self.rotations[index],
        }
    }

    /// Encodes the state as a snapshot.
    pub fn to_bytes(&self) -> (bytes: Vec<u8>)
        ensures
            bytes@ == snapshot_bytes(self@),
    {
        let mut buffer: Vec<u8> = Vec::new();
        put_i32(&mut buffer, self.frame);
        put_u64(&mut buffer, self.positions.len() as u64);
        put_pairs(&mut buffer, &self.positions);
        put_u64(&mut buffer, self.velocities.len() as u64);
        put_pairs(&mut buffer, &self.velocities);
        put_u64(&mut buffer, self.rotations.len() as u64);
        put_words(&mut buffer, &self.rotations);
        proof {
            assert(buffer@ =~= snapshot_bytes(self@));
        }
        buffer
    }

    /// Decodes the state that a buffer holds.  A buffer that ends before
    /// the state does holds none; bytes behind the state are not looked at.
    pub fn from_bytes(bytes: &[u8]) -> (out: Option<BoxGameState>)
        ensures
            out is Some <==> parsed(bytes@) is Some,
            out is Some ==> out->Some_0@ == parsed(bytes@)->Some_0,
    {
        if bytes.len() < 28 {
            return None;
        }
        let frame = match get_i32(bytes, 0) {
            Some(frame) => frame,
            None => { return None; },
        };
        let positions_count = match get_count(bytes, 4, 8) {
            Some(count) => count,
            None => { return None; },
        };
        let positions = get_pairs(bytes, 12, positions_count);
        let velocities_at = 12 + 8 * positions_count;
        let velocities_count = match get_count(bytes, velocities_at, 8) {
            Some(count) => count,
            None => { return None; },
        };
        let velocities = get_pairs(bytes, velocities_at + 8, velocities_count);
        let rotations_at = velocities_at + 8 + 8 * velocities_count;
        let rotations_count = match get_count(bytes, rotations_at, 4) {
            Some(count) => count,
            None => { return None; },
        };
        let rotations = get_words(bytes, rotations_at + 8, rotations_count);
        Some(BoxGameState { frame, positions, velocities, rotations })
    }
}

} // verus!
