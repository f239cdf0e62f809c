//! Deterministic random streams partitioned by stage, space and feature.
//!
//! Every stream is a SplitMix64 generator: the state advances by a fixed odd
//! increment and each output is the state passed through a bijective mixer.
//! Streams are derived from seed material or forked from one another, so a
//! stream's values never depend on how much any other stream was consumed.

use vstd::prelude::*;
use vstd::string::StringExecFns;

verus! {

/// The SplitMix64 state increment (an odd constant).
pub const GOLDEN_GAMMA: u64 = 0x9e37_79b9_7f4a_7c15;

/// The first state of the seed derivation fold.
pub const DERIVE_INITIAL: u64 = 0x6a09_e667_f3bc_c909;

/// A state whose mixed value is `u64::MAX`: some step of every stream reaches it.
const MAX_OUTPUT_PREIMAGE: u64 = 0xcf9a_04af_fa6b_adc0;

/// The multiplicative inverse of `GOLDEN_GAMMA` modulo 2^64.
const GAMMA_INVERSE: u64 = 0xf1de_83e1_9937_733d;

/// The SplitMix64 output mixer.
pub open spec fn spec_mix64(value: u64) -> u64 {
    let a = ((value ^ (value >> 30u64)) * 0xbf58_476d_1ce4_e5b9u64) as u64;
    let b = ((a ^ (a >> 27u64)) * 0x94d0_49bb_1331_11ebu64) as u64;
    b ^ (b >> 31u64)
}

/// One state step: add the increment, wrapping.
pub open spec fn spec_step(state: u64) -> u64 {
    (state + GOLDEN_GAMMA) as u64
}

/// The state after `n` steps from `state`.
pub open spec fn spec_advance(state: u64, n: u64) -> u64 {
    (state + ((n * GOLDEN_GAMMA) as u64)) as u64
}

/// The value that the `k`-th draw (counting from 0) returns from a stream in `state`.
pub open spec fn spec_output(state: u64, k: u64) -> u64 {
    spec_mix64(spec_step(spec_advance(state, k)))
}

/// The rejection threshold of `range_u64` for a range of `width` values:
/// `2^64 mod width`, below which draws are biased and refused.
pub open spec fn spec_range_threshold(width: u64) -> u64 {
    ((0x1_0000_0000_0000_0000int - width) % (width as int)) as u64
}

/// One step of the seed derivation fold over the material's parts.
pub open spec fn spec_derive_step(state: u64, index: u64, part: u64) -> u64 {
    spec_mix64(state ^ spec_mix64((part + ((GOLDEN_GAMMA * (index + 1)) as u64)) as u64))
}

/// The seed material split into its seven 64-bit parts, in fold order.
pub open spec fn spec_material_parts(m: SeedMaterial) -> Seq<u64> {
    seq![
        m.world_seed as u64,
        (m.world_seed >> 64u128) as u64,
        m.stage_id,
        m.spatial_key as u64,
        (m.spatial_key >> 64u128) as u64,
        m.feature_key as u64,
        (m.feature_key >> 64u128) as u64,
    ]
}

/// The fold state after the first `n` parts.
pub open spec fn spec_derive_fold(parts: Seq<u64>, n: nat) -> u64
    decreases n,
{
    if n == 0 {
        DERIVE_INITIAL
    } else {
        spec_derive_step(spec_derive_fold(parts, (n - 1) as nat), (n - 1) as u64, parts[n - 1])
    }
}

/// The seed that a piece of material derives.
pub open spec fn spec_derive(m: SeedMaterial) -> u64 {
    spec_derive_fold(spec_material_parts(m), 7)
}

/// The seed of the stream forked under `stream_key` from a stream in `state`.
pub open spec fn spec_fork(state: u64, stream_key: u128) -> u64 {
    spec_mix64(state ^ (stream_key as u64) ^ spec_mix64((stream_key >> 64u128) as u64))
}

proof fn lemma_wrapping_add_gamma(x: u64)
    ensures
        x.wrapping_add(GOLDEN_GAMMA) == spec_step(x),
{
    assert(x.wrapping_add(0x9e37_79b9_7f4a_7c15u64) == (x + 0x9e37_79b9_7f4a_7c15u64) as u64)
        by (bit_vector);
}

proof fn lemma_advance_zero(state: u64)
    ensures
        spec_advance(state, 0) == state,
{
    assert(((state + ((0u64 * 0x9e37_79b9_7f4a_7c15u64) as u64)) as u64) == state) by (bit_vector);
}

proof fn lemma_advance_step(state: u64, n: u64)
    requires
        n < u64::MAX,
    ensures
        spec_step(spec_advance(state, n)) == spec_advance(state, (n + 1) as u64),
{
    assert(((((state + ((n * 0x9e37_79b9_7f4a_7c15u64) as u64)) as u64) + 0x9e37_79b9_7f4a_7c15u64) as u64)
        == ((state + ((((n + 1) as u64) * 0x9e37_79b9_7f4a_7c15u64) as u64)) as u64)) by (bit_vector)
        requires
            n < 0xffff_ffff_ffff_ffffu64,
    ;
}

/// The number of steps after which a stream in `state` reaches the state
/// whose mixed value is `u64::MAX`.
spec fn steps_to_max_output(state: u64) -> u64 {
    (((((MAX_OUTPUT_PREIMAGE - GOLDEN_GAMMA) as u64 - state) as u64) * GAMMA_INVERSE) as u64)
}

proof fn lemma_reaches_max_output(state: u64)
    ensures
        spec_output(state, steps_to_max_output(state)) == u64::MAX,
{
    let d = ((0xcf9a_04af_fa6b_adc0u64 - 0x9e37_79b9_7f4a_7c15u64) as u64 - state) as u64;
    let k = (d * 0xf1de_83e1_9937_733du64) as u64;
    let a = (state + ((k * 0x9e37_79b9_7f4a_7c15u64) as u64)) as u64;
    assert(((a + 0x9e37_79b9_7f4a_7c15u64) as u64) == 0xcf9a_04af_fa6b_adc0u64) by (bit_vector)
        requires
            d == ((0xcf9a_04af_fa6b_adc0u64 - 0x9e37_79b9_7f4a_7c15u64) as u64 - state) as u64,
            k == (d * 0xf1de_83e1_9937_733du64) as u64,
            a == (state + ((k * 0x9e37_79b9_7f4a_7c15u64) as u64)) as u64,
    ;
    assert(k == steps_to_max_output(state));
    assert(spec_mix64(0xcf9a_04af_fa6b_adc0u64) == 0xffff_ffff_ffff_ffffu64) by (bit_vector);
}

pub fn mix64(value: u64) -> (result: u64)
    ensures
        result == spec_mix64(value),
{
    let a = (value ^ (value >> 30)).wrapping_mul(0xbf58_476d_1ce4_e5b9);
    let b = (a ^ (a >> 27)).wrapping_mul(0x94d0_49bb_1331_11eb);
    proof {
        let x = value ^ (value >> 30u64);
        let y = a ^ (a >> 27u64);
        assert(x.wrapping_mul(0xbf58_476d_1ce4_e5b9u64) == (x * 0xbf58_476d_1ce4_e5b9u64) as u64)
            by (bit_vector);
        assert(y.wrapping_mul(0x94d0_49bb_1331_11ebu64) == (y * 0x94d0_49bb_1331_11ebu64) as u64)
            by (bit_vector);
    }
    b ^ (b >> 31)
}

/// The inputs from which a stream seed is derived: the world seed, the
/// generation stage, a spatial key and a feature key.
#[derive(Clone, Copy, Debug, PartialEq, Eq, Structural, Hash)]
pub struct SeedMaterial {
    pub world_seed: u128,
    pub stage_id: u64,
    pub spatial_key: u128,
    pub feature_key: u128,
}

impl SeedMaterial {
    /// Folds the seven 64-bit parts of the material into one seed.
    pub fn derive(self) -> (seed: u64)
        ensures
            seed == spec_derive(self),
    {
        let parts: [u64; 7] = [
            self.world_seed as u64,
            (self.world_seed >> 64) as u64,
            self.stage_id,
            self.spatial_key as u64,
            (self.spatial_key >> 64) as u64,
            self.feature_key as u64,
            (self.feature_key >> 64) as u64,
        ];
        let ghost expected = spec_material_parts(self);
        assert(parts@ == expected);
        let mut state: u64 = DERIVE_INITIAL;
        let mut index: usize = 0;
        while index < 7
            invariant
                index <= 7,
                parts@ == expected,
                expected.len() == 7,
                state == spec_derive_fold(expected, index as nat),
            decreases 7 - index,
        {
            let part = parts[index];
            let offset = GOLDEN_GAMMA.wrapping_mul(index as u64 + 1);
            proof {
                let i = index as u64;
                assert(GOLDEN_GAMMA.wrapping_mul((i + 1) as u64) == ((GOLDEN_GAMMA * ((i + 1) as u64)) as u64))
                    by (bit_vector);
                assert(part.wrapping_add(offset) == (part + offset) as u64) by (bit_vector);
            }
            state = mix64(state ^ mix64(part.wrapping_add(offset)));
            index = index + 1;
        }
        state
    }
}

/// A SplitMix64 stream.
#[derive(Clone, Copy, Debug, PartialEq, Eq, Structural)]
pub struct DeterministicRng {
    state: u64,
}

impl View for DeterministicRng {
    type V = u64;

    /// The stream's current state.
    closed spec fn view(&self) -> u64 {
        self.state
    }
}

/// The error of `range_u64` on a range with no values.
#[derive(Clone, Copy, Debug, PartialEq, Eq, Structural)]
pub enum RangeError {
    EmptyOrReversed { start: u64, end_exclusive: u64 },
}

/// The character of a decimal digit.
pub open spec fn digit_char(d: nat) -> char {
    seq!['0', '1', '2', '3', '4', '5', '6', '7', '8', '9'][d as int]
}

/// A number written in decimal, most significant digit first, with no
/// leading zeros.
pub open spec fn decimal(n: nat) -> Seq<char>
    decreases n,
{
    if n < 10 {
        seq![digit_char(n)]
    } else {
        decimal(n / 10).push(digit_char(n % 10))
    }
}

/// The text of one decimal digit.
fn digit_text(d: u128) -> (text: &'static str)
    requires
        d < 10,
    ensures
        text@ == seq![digit_char(d as nat)],
{
    match d {
        0 => {
            proof { reveal_strlit("0"); }
            "0"
        },
        1 => {
            proof { reveal_strlit("1"); }
            "1"
        },
        2 => {
            proof { reveal_strlit("2"); }
            "2"
        },
        3 => {
            proof { reveal_strlit("3"); }
            "3"
        },
        4 => {
            proof { reveal_strlit("4"); }
            "4"
        },
        5 => {
            proof { reveal_strlit("5"); }
            "5"
        },
        6 => {
            proof { reveal_strlit("6"); }
            "6"
        },
        7 => {
            proof { reveal_strlit("7"); }
            "7"
        },
        8 => {
            proof { reveal_strlit("8"); }
            "8"
        },
        _ => {
            proof { reveal_strlit("9"); }
            "9"
        },
    }
}

/// Appends a number written in decimal.
pub(crate) fn append_decimal(text: &mut String, n: u128)
    ensures
        final(text)@ == old(text)@ + decimal(n as nat),
    decreases n,
{
    let ghost before = text@;
    if n >= 10 {
        append_decimal(text, n / 10);
    }
    text.append(digit_text(n % 10));
    proof {
        if n >= 10 {
            assert(decimal(n as nat) == decimal((n / 10) as nat).push(digit_char((n % 10) as nat)));
            assert(text@ =~= before + decimal(n as nat));
        } else {
            assert(text@ =~= before + decimal(n as nat));
        }
    }
}

impl RangeError {
    /// The error's message: the range, written in decimal.
    pub fn message(&self) -> (message: String)
        ensures
            match *self {
                RangeError::EmptyOrReversed { start, end_exclusive } => message@ == "invalid integer range "@
                    + decimal(start as nat) + ".."@ + decimal(end_exclusive as nat),
            },
    {
        match self {
            RangeError::EmptyOrReversed { start, end_exclusive } => {
                let mut text = "invalid integer range ".to_owned();
                append_decimal(&mut text, *start as u128);
                text.append("..");
                append_decimal(&mut text, *end_exclusive as u128);
                text
            }
        }
    }
}

impl DeterministicRng {
    pub fn from_seed(seed: u64) -> (rng: Self)
        ensures
            rng@ == seed,
    {
        DeterministicRng { state: seed }
    }

    pub fn from_material(material: SeedMaterial) -> (rng: Self)
        ensures
            rng@ == spec_derive(material),
    {
        Self::from_seed(material.derive())
    }

    pub fn state(self) -> (state: u64)
        ensures
            state == self@,
    {
        self.state
    }

    /// Advances the state by one step and returns the mixed new state.
    pub fn next_u64(&mut self) -> (value: u64)
        ensures
            final(self)@ == spec_step(old(self)@),
            value == spec_mix64(final(self)@),
            value == spec_output(old(self)@, 0),
    {
        proof {
            lemma_wrapping_add_gamma(self.state);
            lemma_advance_zero(self.state);
        }
        self.state = self.state.wrapping_add(GOLDEN_GAMMA);
        mix64(self.state)
    }

    /// Draws a value uniformly from `start..end_exclusive` by rejecting the
    /// draws below the bias threshold; an empty or reversed range is refused
    /// and draws nothing.
    pub fn range_u64(&mut self, start: u64, end_exclusive: u64) -> (result: Result<u64, RangeError>)
        ensures
            match result {
                Err(error) => {
                    &&& end_exclusive <= start
                    &&& error == (RangeError::EmptyOrReversed { start, end_exclusive })
                    &&& final(self)@ == old(self)@
                },
                Ok(value) => {
                    &&& start < end_exclusive
                    &&& exists|k: u64|
                        #![trigger spec_output(old(self)@, k)]
                        {
                            let width = (end_exclusive - start) as u64;
                            &&& spec_output(old(self)@, k) >= spec_range_threshold(width)
                            &&& (forall|j: u64|
                                j < k ==> #[trigger] spec_output(old(self)@, j)
                                    < spec_range_threshold(width))
                            &&& value == start + spec_output(old(self)@, k) % width
                            &&& final(self)@ == spec_step(spec_advance(old(self)@, k))
                        }
                },
            },
    {
        if end_exclusive <= start {
            return Err(RangeError::EmptyOrReversed { start, end_exclusive });
        }
        let width = end_exclusive - start;
        let threshold = 0u64.wrapping_sub(width) % width;
        assert(threshold == spec_range_threshold(width));
        let ghost initial = self.state;
        let ghost bound = steps_to_max_output(initial);
        let ghost mut drawn: u64 = 0;
        proof {
            lemma_reaches_max_output(initial);
            lemma_advance_zero(initial);
        }
        loop
            invariant
                width == end_exclusive - start,
                0 < width,
                initial == old(self)@,
                threshold == spec_range_threshold(width),
                drawn <= bound,
                spec_output(initial, bound) == u64::MAX,
                self.state == spec_advance(initial, drawn),
                forall|j: u64| j < drawn ==> #[trigger] spec_output(initial, j) < threshold,
            decreases bound - drawn,
        {
            let value = self.next_u64();
            if value >= threshold {
                proof {
                    assert(value == spec_output(initial, drawn));
                    assert(self.state == spec_step(spec_advance(initial, drawn)));
                    assert(value >= spec_range_threshold((end_exclusive - start) as u64));
                }
                return Ok(start + value % width);
            }
            proof {
                assert(drawn != bound);
                lemma_advance_step(initial, drawn);
                drawn = (drawn + 1) as u64;
            }
        }
    }

    /// A new stream whose seed depends only on this stream's state and the key.
    pub fn fork(&self, stream_key: u128) -> (forked: Self)
        ensures
            forked@ == spec_fork(self@, stream_key),
    {
        let seed = mix64(self.state ^ stream_key as u64 ^ mix64((stream_key >> 64) as u64));
        Self::from_seed(seed)
    }
}

} // verus!
