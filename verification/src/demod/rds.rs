//! Radio Data System: the 57 kHz data subcarrier carried alongside broadcast FM.
//!
//! Above the signal path this is two problems stacked. A coding one: the stream has no
//! framing, so block boundaries have to be found by testing every bit position against a
//! shortened cyclic code until the syndromes line up. And a protocol one: reassembling
//! station name and radio text from two- and four-character fragments that arrive out of
//! order and repeat indefinitely.

use vstd::prelude::*;

verus! {

/// Feedback taps of the shortened cyclic code, excluding the leading term.
///
/// The generator is `x^10 + x^8 + x^7 + x^5 + x^4 + x^3 + 1`.
pub const GENERATOR: u16 = 0x1B9;

/// The five offset words. Each block in a group is scrambled by a different one, which is
/// what lets a receiver work out which of the four it is looking at.
#[derive(Debug, Clone, Copy, PartialEq, Eq, Structural)]
pub enum Offset {
    A,
    B,
    C,
    /// Used in place of C by version B groups.
    CPrime,
    D,
}

impl Offset {
    /// The ten bits that a block is scrambled with.
    pub open spec fn spec_word(self) -> u16 {
        match self {
            Offset::A => 0x0FC,
            Offset::B => 0x198,
            Offset::C => 0x168,
            Offset::CPrime => 0x350,
            Offset::D => 0x1B4,
        }
    }

    /// The ten bits that a block is scrambled with.
    pub fn word(self) -> (word: u16)
        ensures
            word == self.spec_word(),
    {
        match self {
            Offset::A => 0x0FC,
            Offset::B => 0x198,
            Offset::C => 0x168,
            Offset::CPrime => 0x350,
            Offset::D => 0x1B4,
        }
    }

    /// All five, in the order in which a block is tested for them.
    pub const ALL: [Offset; 5] = [Offset::A, Offset::B, Offset::C, Offset::CPrime, Offset::D];
}

/// The remainder after one more bit is brought in below a remainder.
pub open spec fn divide_step(reg: u16, bit: u16) -> u16 {
    let shifted = ((reg << 1) & 0x3FF) | bit;
    if reg & 0x200 != 0 {
        shifted ^ GENERATOR
    } else {
        shifted
    }
}

/// Long division of the low `len` bits of `vec` by the generator, most significant first.
pub open spec fn spec_syndrome(vec: u32, len: nat) -> u16
    decreases len,
{
    if len == 0 {
        0
    } else {
        divide_step(spec_syndrome(vec >> 1, (len - 1) as nat), (vec & 1) as u16)
    }
}

/// Remainder of `vec` (interpreted as `len` bits) under the RDS generator polynomial.
///
/// A correctly received block scrambled by offset word `O` leaves the syndrome of `O`
/// behind, because the code is linear and the data part divides cleanly. That turns block
/// identification into a table lookup rather than a search.
pub fn syndrome(vec: u32, len: u32) -> (reg: u16)
    requires
        len <= 32,
    ensures
        reg == spec_syndrome(vec, len as nat),
{
    let mut reg: u16 = 0;
    let mut i: u32 = len;
    while i > 0
        invariant
            i <= len <= 32,
            reg == spec_syndrome(vec >> i, (len - i) as nat),
        decreases i,
    {
        let ghost above = i;
        i = i - 1;
        let bit: u16 = ((vec >> i) & 1) as u16;
        assert((vec >> i) >> 1 == vec >> above) by (bit_vector)
            requires
                above == i + 1,
                above <= 32,
        ;
        let feedback = (reg & 0x200) != 0;
        reg = ((reg << 1) & 0x3FF) | bit;
        if feedback {
            reg = reg ^ GENERATOR;
        }
    }
    assert(vec >> 0u32 == vec) by (bit_vector);
    reg
}

/// Syndrome a valid block carrying the given offset word will produce.
pub fn expected_syndrome(offset: Offset) -> (s: u16)
    ensures
        s == spec_syndrome(offset.spec_word() as u32, 26),
        s == offset.spec_word(),
{
    proof {
        offset_word_is_its_own_syndrome(offset);
    }
    syndrome(offset.word() as u32, 26)
}

/// The offset whose word a syndrome is.
pub open spec fn offset_with_word(s: u16) -> Option<Offset> {
    if s == 0x0FC {
        Some(Offset::A)
    } else if s == 0x198 {
        Some(Offset::B)
    } else if s == 0x168 {
        Some(Offset::C)
    } else if s == 0x350 {
        Some(Offset::CPrime)
    } else if s == 0x1B4 {
        Some(Offset::D)
    } else {
        None
    }
}

/// The offset that the low twenty-six bits of a block were scrambled with.
pub open spec fn spec_classify(block: u32) -> Option<Offset> {
    offset_with_word(spec_syndrome(block & 0x3FF_FFFF, 26))
}

/// Identifies which offset word a 26-bit block was scrambled with, if any.
pub fn classify(block: u32) -> (offset: Option<Offset>)
    ensures
        offset == spec_classify(block),
{
    let s: u16 = syndrome(block & 0x3FF_FFFF, 26);
    let mut i: usize = 0;
    while i < 5
        invariant
            i <= 5,
            s == spec_syndrome(block & 0x3FF_FFFF, 26),
            forall|j: int| 0 <= j < i ==> (#[trigger] Offset::ALL@[j]).spec_word() != s,
        decreases 5 - i,
    {
        let offset = Offset::ALL[i];
        if expected_syndrome(offset) == s {
            return Some(offset);
        }
        i += 1;
    }
    proof {
        assert(Offset::ALL@[0].spec_word() != s);
        assert(Offset::ALL@[1].spec_word() != s);
        assert(Offset::ALL@[2].spec_word() != s);
        assert(Offset::ALL@[3].spec_word() != s);
        assert(Offset::ALL@[4].spec_word() != s);
    }
    None
}

/// The check word of a block: the remainder of the information bits raised by the code's
/// degree, scrambled by the offset.
pub open spec fn check_word(info: u16, offset: Offset) -> u16 {
    spec_syndrome((info as u32) << 10, 26) ^ offset.spec_word()
}

/// A block: the information bits above the check word.
pub open spec fn spec_encode_block(info: u16, offset: Offset) -> u32 {
    ((info as u32) << 10) | (check_word(info, offset) as u32 & 0x3FF)
}

/// Builds a valid 26-bit block from 16 information bits and an offset word.
pub fn encode_block(info: u16, offset: Offset) -> (block: u32)
    ensures
        block == spec_encode_block(info, offset),
{
    let check: u16 = syndrome((info as u32) << 10, 26) ^ offset.word();
    ((info as u32) << 10) | (check as u32 & 0x3FF)
}

/// A remainder always fits ten bits.
pub proof fn syndrome_fits_ten_bits(vec: u32, len: nat)
    ensures
        spec_syndrome(vec, len) < 0x400,
    decreases len,
{
    if len > 0 {
        let reg = spec_syndrome(vec >> 1, (len - 1) as nat);
        let low = vec & 1;
        let bit = low as u16;
        assert(low <= 1) by (bit_vector)
            requires
                low == vec & 1,
        ;
        assert(divide_step(reg, bit) < 0x400) by (bit_vector)
            requires
                bit <= 1,
        ;
    }
}

/// The code is linear: the remainder of a sum is the sum of the remainders.
pub proof fn syndrome_is_linear(a: u32, b: u32, len: nat)
    ensures
        spec_syndrome(a ^ b, len) == spec_syndrome(a, len) ^ spec_syndrome(b, len),
    decreases len,
{
    if len == 0 {
        assert(0u16 ^ 0u16 == 0u16) by (bit_vector);
    } else {
        syndrome_is_linear(a >> 1, b >> 1, (len - 1) as nat);
        syndrome_fits_ten_bits(a >> 1, (len - 1) as nat);
        syndrome_fits_ten_bits(b >> 1, (len - 1) as nat);
        let r = spec_syndrome(a >> 1, (len - 1) as nat);
        let s = spec_syndrome(b >> 1, (len - 1) as nat);
        let p = (a & 1) as u16;
        let q = (b & 1) as u16;
        assert((a ^ b) >> 1 == (a >> 1) ^ (b >> 1) && ((a ^ b) & 1) as u16 == (a & 1) as u16 ^ (b
            & 1) as u16 && (a & 1) as u16 <= 1 && (b & 1) as u16 <= 1) by (bit_vector);
        assert(divide_step(r ^ s, p ^ q) == divide_step(r, p) ^ divide_step(s, q)) by (bit_vector)
            requires
                p <= 1,
                q <= 1,
                r < 0x400,
                s < 0x400,
        ;
    }
}

/// A polynomial of lower degree than the generator is its own remainder.
pub proof fn short_words_divide_through(word: u32, len: u32)
    requires
        len <= 32,
        word < 0x400,
        word >> len == 0,
    ensures
        spec_syndrome(word, len as nat) == word,
    decreases len,
{
    if len == 0 {
        assert(word == 0) by (bit_vector)
            requires
                word >> 0u32 == 0,
        ;
    } else {
        let shorter = (len - 1) as u32;
        assert((word >> 1) < 0x200 && (word >> 1) >> shorter == 0) by (bit_vector)
            requires
                word < 0x400,
                word >> len == 0,
                len == shorter + 1,
                len <= 32,
        ;
        short_words_divide_through(word >> 1, shorter);
        let reg = (word >> 1) as u16;
        assert(divide_step(reg, (word & 1) as u16) == word) by (bit_vector)
            requires
                word < 0x400,
                reg == (word >> 1) as u16,
        ;
    }
}

/// Each offset word is ten bits, so dividing leaves it unchanged.
pub proof fn offset_word_is_its_own_syndrome(offset: Offset)
    ensures
        spec_syndrome(offset.spec_word() as u32, 26) == offset.spec_word(),
{
    let word = offset.spec_word() as u32;
    assert(word >> 26 == 0) by (bit_vector)
        requires
            word < 0x400,
    ;
    short_words_divide_through(word, 26);
}

/// No two offsets share a syndrome, so identifying a block is never ambiguous.
pub proof fn offsets_have_distinct_syndromes(a: Offset, b: Offset)
    requires
        spec_syndrome(a.spec_word() as u32, 26) == spec_syndrome(b.spec_word() as u32, 26),
    ensures
        a == b,
{
    offset_word_is_its_own_syndrome(a);
    offset_word_is_its_own_syndrome(b);
}

/// The product of a polynomial with the generator.
pub open spec fn times_generator(q: u64) -> u64 {
    (q << 10) ^ (q << 8) ^ (q << 7) ^ (q << 5) ^ (q << 4) ^ (q << 3) ^ q
}

/// The long division's quotient.
pub open spec fn quotient(vec: u32, len: nat) -> u64
    decreases len,
{
    if len == 0 {
        0
    } else {
        let above = quotient(vec >> 1, (len - 1) as nat) << 1;
        if spec_syndrome(vec >> 1, (len - 1) as nat) & 0x200 != 0 {
            above | 1
        } else {
            above
        }
    }
}

/// The syndrome is the remainder of polynomial division: the word is a multiple of the
/// generator plus the syndrome, and the syndrome has lower degree than the generator.
pub proof fn syndrome_is_the_remainder(vec: u32, len: u32)
    requires
        len <= 32,
        len < 32 ==> vec >> len == 0,
    ensures
        vec as u64 == times_generator(quotient(vec, len as nat)) ^ spec_syndrome(
            vec,
            len as nat,
        ) as u64,
        spec_syndrome(vec, len as nat) < 0x400,
{
    syndrome_fits_ten_bits(vec, len as nat);
    division_holds(vec, len);
}

proof fn division_holds(vec: u32, len: u32)
    requires
        len <= 32,
        len < 32 ==> vec >> len == 0,
    ensures
        vec as u64 == times_generator(quotient(vec, len as nat)) ^ spec_syndrome(
            vec,
            len as nat,
        ) as u64,
        len == 0 ==> quotient(vec, len as nat) == 0,
        len > 0 ==> quotient(vec, len as nat) >> len == 0,
    decreases len,
{
    if len == 0 {
        assert(vec == 0) by (bit_vector)
            requires
                vec >> 0u32 == 0,
        ;
        assert(times_generator(0) ^ 0u64 == 0) by (bit_vector);
    } else {
        let shorter = (len - 1) as u32;
        let half = vec >> 1;
        assert(half >> shorter == 0) by (bit_vector)
            requires
                half == vec >> 1,
                len == shorter + 1,
                len <= 32,
                len < 32 ==> vec >> len == 0,
        ;
        division_holds(half, shorter);
        syndrome_fits_ten_bits(half, shorter as nat);
        let q = quotient(half, shorter as nat);
        let reg = spec_syndrome(half, shorter as nat);
        let bit = (vec & 1) as u16;
        assert(q >> shorter == 0) by {
            assert(q == 0 ==> q >> shorter == 0) by (bit_vector);
        }
        let next: u64 = if reg & 0x200 != 0 {
            (q << 1) | 1
        } else {
            q << 1
        };
        let rem = divide_step(reg, bit);
        assert(vec as u64 == times_generator(next) ^ rem as u64 && next >> len == 0) by (bit_vector)
            requires
                half == vec >> 1,
                half as u64 == times_generator(q) ^ reg as u64,
                bit == (vec & 1) as u16,
                reg < 0x400,
                q >> shorter == 0,
                len == shorter + 1,
                1 <= len <= 32,
                next == (if reg & 0x200 != 0 {
                    (q << 1) | 1
                } else {
                    q << 1
                }),
                rem == divide_step(reg, bit),
        ;
    }
}

/// Bringing zeroes in below a nonzero remainder never makes it zero.
proof fn nonzero_remainders_stay_nonzero(reg: u16)
    by (bit_vector)
    requires
        reg != 0,
        reg < 0x400,
    ensures
        divide_step(reg, 0) != 0,
{
}

/// A single bit leaves a nonzero remainder wherever it stands.
pub proof fn single_bits_leave_a_remainder(bit: u32, len: u32)
    requires
        bit < len <= 32,
    ensures
        spec_syndrome(1u32 << bit, len as nat) != 0,
    decreases len,
{
    let word = 1u32 << bit;
    if bit == 0 {
        assert(1u32 >> len == 0 || len == 0) by (bit_vector)
            requires
                1 <= len <= 32,
        ;
        assert(word == 1) by (bit_vector)
            requires
                word == 1u32 << 0u32,
        ;
        short_words_divide_through(word, len);
    } else {
        let lower = (bit - 1) as u32;
        assert(word >> 1 == 1u32 << lower && (word & 1) as u16 == 0) by (bit_vector)
            requires
                word == 1u32 << bit,
                bit == lower + 1,
                bit < 32,
        ;
        single_bits_leave_a_remainder(lower, (len - 1) as u32);
        syndrome_fits_ten_bits(word >> 1, (len - 1) as nat);
        nonzero_remainders_stay_nonzero(spec_syndrome(word >> 1, (len - 1) as nat));
    }
}

/// An encoded block fits twenty-six bits, leaves exactly its offset word as its syndrome, and
/// gives its information bits back; before scrambling it divides cleanly.
pub proof fn encoded_blocks_classify_back(info: u16, offset: Offset)
    ensures
        ({
            let block = spec_encode_block(info, offset);
            &&& block < 0x400_0000
            &&& spec_syndrome(block, 26) == offset.spec_word()
            &&& spec_classify(block) == Some(offset)
            &&& ((block >> 10) & 0xFFFF) as u16 == info
            &&& spec_syndrome(block ^ offset.spec_word() as u32, 26) == 0
        }),
{
    let raised = (info as u32) << 10;
    let rem = spec_syndrome(raised, 26);
    let word = offset.spec_word();
    let check = check_word(info, offset);
    let block = spec_encode_block(info, offset);
    syndrome_fits_ten_bits(raised, 26);
    assert(check < 0x400) by (bit_vector)
        requires
            check == rem ^ word,
            rem < 0x400,
            word < 0x400,
    ;
    assert(block == raised ^ (check as u32) && block < 0x400_0000 && block & 0x3FF_FFFF == block
        && ((block >> 10) & 0xFFFF) as u16 == info && check as u32 >> 26 == 0) by (bit_vector)
        requires
            raised == (info as u32) << 10,
            check < 0x400,
            block == raised | (check as u32 & 0x3FF),
    ;
    syndrome_is_linear(raised, check as u32, 26);
    short_words_divide_through(check as u32, 26);
    assert(rem ^ check == word && word ^ word == 0) by (bit_vector)
        requires
            check == rem ^ word,
    ;
    syndrome_is_linear(block, word as u32, 26);
    offset_word_is_its_own_syndrome(offset);
}

/// Flipping any one bit of a block takes it away from its offset.
pub proof fn single_bit_errors_are_detected(info: u16, offset: Offset, bit: u32)
    requires
        bit < 26,
    ensures
        spec_classify(spec_encode_block(info, offset) ^ (1u32 << bit)) != Some(offset),
{
    let block = spec_encode_block(info, offset);
    let flip = 1u32 << bit;
    let corrupted = block ^ flip;
    encoded_blocks_classify_back(info, offset);
    single_bits_leave_a_remainder(bit, 26);
    syndrome_is_linear(block, flip, 26);
    let word = offset.spec_word();
    let rest = spec_syndrome(flip, 26);
    assert(corrupted & 0x3FF_FFFF == corrupted) by (bit_vector)
        requires
            corrupted == block ^ flip,
            block < 0x400_0000,
            flip == 1u32 << bit,
            bit < 26,
    ;
    assert(word ^ rest != word) by (bit_vector)
        requires
            rest != 0,
    ;
}

/// What is known of a station.
#[verifier::ext_equal]
pub struct Station {
    pub program_id: Option<u16>,
    pub program_type: Option<u8>,
    pub station_name: Seq<char>,
    pub radio_text: Seq<char>,
    pub traffic_program: bool,
    pub blocks_valid: nat,
    pub blocks_invalid: nat,
    pub groups_decoded: nat,
}

impl Station {
    /// Nothing is known yet.
    pub open spec fn unknown() -> Station {
        Station {
            program_id: None,
            program_type: None,
            station_name: seq![],
            radio_text: seq![],
            traffic_program: false,
            blocks_valid: 0,
            blocks_invalid: 0,
            groups_decoded: 0,
        }
    }
}

/// Everything the decoder has learned about the station currently tuned.
#[derive(Debug, Clone, PartialEq, Eq)]
pub struct RdsState {
    /// Programme identification code, which uniquely identifies the station.
    pub program_id: Option<u16>,
    /// Programme type, an index into a genre table that differs by region.
    pub program_type: Option<u8>,
    /// Station name, eight characters.
    pub station_name: String,
    /// Radio text, up to sixty-four characters.
    pub radio_text: String,
    /// Whether the station carries traffic announcements.
    pub traffic_program: bool,
    pub blocks_valid: u64,
    pub blocks_invalid: u64,
    pub groups_decoded: u64,
}

impl View for RdsState {
    type V = Station;

    open spec fn view(&self) -> Station {
        Station {
            program_id: self.program_id,
            program_type: self.program_type,
            station_name: self.station_name@,
            radio_text: self.radio_text@,
            traffic_program: self.traffic_program,
            blocks_valid: self.blocks_valid as nat,
            blocks_invalid: self.blocks_invalid as nat,
            groups_decoded: self.groups_decoded as nat,
        }
    }
}

impl Default for RdsState {
    fn default() -> (state: Self)
        ensures
            state@ == Station::unknown(),
    {
        Self {
            program_id: None,
            program_type: None,
            station_name: String::new(),
            radio_text: String::new(),
            traffic_program: false,
            blocks_valid: 0,
            blocks_invalid: 0,
            groups_decoded: 0,
        }
    }
}

impl RdsState {
    /// Fraction of blocks that failed their syndrome check, as a numerator and a denominator.
    /// A useful signal-quality proxy; zero before any block has been seen.
    pub fn block_error_rate(&self) -> (rate: (u64, u64))
        requires
            self.blocks_valid + self.blocks_invalid <= u64::MAX,
        ensures
            rate == (if self.blocks_valid + self.blocks_invalid == 0 {
                (0u64, 1u64)
            } else {
                (self.blocks_invalid, (self.blocks_valid + self.blocks_invalid) as u64)
            }),
    {
        let total: u64 = self.blocks_valid + self.blocks_invalid;
        if total == 0 {
            (0, 1)
        } else {
            (self.blocks_invalid, total)
        }
    }

    pub fn clear(&mut self)
        ensures
            final(self)@ == Station::unknown(),
    {
        *self = Self::default();
    }
}

/// A byte as it may be shown: control and non-ASCII bytes become spaces.
pub open spec fn shown(byte: u8) -> char {
    if 0x20 <= byte < 0x7F {
        byte as char
    } else {
        ' '
    }
}

/// Text without its trailing spaces.
pub open spec fn without_trailing_spaces(text: Seq<char>) -> Seq<char>
    decreases text.len(),
{
    if text.len() > 0 && text.last() == ' ' {
        without_trailing_spaces(text.drop_last())
    } else {
        text
    }
}

/// Bytes as text: unprintable ones replaced, trailing spaces dropped.
pub open spec fn sanitised(bytes: Seq<u8>) -> Seq<char> {
    without_trailing_spaces(bytes.map_values(|b: u8| shown(b)))
}

/// Replaces control and non-ASCII bytes with spaces, then trims.
///
/// The RDS character set is not ASCII above 0x7F, and stations transmit whatever they like
/// in the unused positions. Passing that through unfiltered puts control characters into a
/// UI string.
fn sanitise(bytes: &[u8]) -> (text: String)
    ensures
        text@ == sanitised(bytes@),
{
    let ghost whole = bytes@.map_values(|b: u8| shown(b));
    let mut end: usize = bytes.len();
    assert(whole.take(end as int) =~= whole);
    while end > 0 && (bytes[end - 1] <= 0x20 || bytes[end - 1] >= 0x7F)
        invariant
            end <= bytes@.len(),
            whole == bytes@.map_values(|b: u8| shown(b)),
            without_trailing_spaces(whole) == without_trailing_spaces(whole.take(end as int)),
        decreases end,
    {
        proof {
            let longer = whole.take(end as int);
            assert(longer.last() == whole[end - 1]);
            assert(whole[end - 1] == shown(bytes@[end - 1]));
            assert(0x20u8 as char == ' ');
            assert(longer.drop_last() =~= whole.take(end - 1));
        }
        end -= 1;
    }
    let mut text = String::new();
    let mut i: usize = 0;
    while i < end
        invariant
            i <= end <= bytes@.len(),
            whole == bytes@.map_values(|b: u8| shown(b)),
            text@ == whole.take(i as int),
        decreases end - i,
    {
        let b: u8 = bytes[i];
        if 0x20 <= b && b < 0x7F {
            text.push(b as char);
        } else {
            text.push(' ');
        }
        i += 1;
        assert(text@ =~= whole.take(i as int));
    }
    proof {
        let kept = whole.take(end as int);
        if end > 0 {
            assert(kept.last() == shown(bytes@[end - 1]));
            assert(bytes@[end - 1] as char != ' ');
        }
        assert(without_trailing_spaces(kept) == kept);
    }
    text
}

/// A station together with the fragments of its name and text that are still being put
/// together.
#[verifier::ext_equal]
pub struct Assembly {
    pub name: Seq<u8>,
    pub name_seen: Seq<bool>,
    pub text: Seq<u8>,
    pub text_flag: Option<bool>,
    pub station: Station,
}

/// A run of `n` spaces.
pub open spec fn blank(n: nat) -> Seq<u8> {
    Seq::new(n, |i: int| 0x20u8)
}

impl Assembly {
    /// Nothing has arrived yet.
    pub open spec fn empty() -> Assembly {
        Assembly {
            name: blank(8),
            name_seen: Seq::new(4, |i: int| false),
            text: blank(64),
            text_flag: None,
            station: Station::unknown(),
        }
    }

    /// The buffers have their sizes.
    pub open spec fn wf(self) -> bool {
        &&& self.name.len() == 8
        &&& self.name_seen.len() == 4
        &&& self.text.len() == 64
    }

    /// After the fragment of a name that a group of type 0 carries.
    ///
    /// The name is published only once every fragment has been seen.
    pub open spec fn with_name(self, b: u16, d: u16) -> Assembly {
        let segment = b as int % 4;
        let name = self.name.update(2 * segment, (d / 0x100) as u8).update(
            2 * segment + 1,
            (d % 0x100) as u8,
        );
        let name_seen = self.name_seen.update(segment, true);
        let complete = name_seen[0] && name_seen[1] && name_seen[2] && name_seen[3];
        Assembly {
            name,
            name_seen,
            station: Station {
                station_name: if complete {
                    sanitised(name)
                } else {
                    self.station.station_name
                },
                ..self.station
            },
            ..self
        }
    }

    /// The text that a fragment is written into: what came before it, unless the flag says
    /// that a new message has begun.
    pub open spec fn continued_text(self, flag: bool) -> Seq<u8> {
        if self.text_flag == Some(flag) {
            self.text
        } else {
            blank(64)
        }
    }

    /// After the fragment of radio text that a group of type 2 carries: four characters in
    /// version A, two in version B.
    pub open spec fn with_text(self, b: u16, version_b: bool, c: u16, d: u16) -> Assembly {
        let segment = b as int % 16;
        let flag = b as int / 16 % 2 == 1;
        let text = if version_b {
            self.continued_text(flag).update(2 * segment, (d / 0x100) as u8).update(
                2 * segment + 1,
                (d % 0x100) as u8,
            )
        } else {
            self.continued_text(flag).update(4 * segment, (c / 0x100) as u8).update(
                4 * segment + 1,
                (c % 0x100) as u8,
            ).update(4 * segment + 2, (d / 0x100) as u8).update(
                4 * segment + 3,
                (d % 0x100) as u8,
            )
        };
        Assembly {
            text,
            text_flag: Some(flag),
            station: Station { radio_text: sanitised(message_of(text)), ..self.station },
            ..self
        }
    }

    /// After a whole group.
    pub open spec fn with_group(self, blocks: Seq<u16>) -> Assembly {
        let b = blocks[1];
        let common = Assembly {
            station: Station {
                program_id: Some(blocks[0]),
                program_type: Some((b as int / 32 % 32) as u8),
                traffic_program: b as int / 1024 % 2 == 1,
                groups_decoded: self.station.groups_decoded + 1,
                ..self.station
            },
            ..self
        };
        if b / 4096 == 0 {
            common.with_name(b, blocks[3])
        } else if b / 4096 == 2 {
            common.with_text(b, b as int / 2048 % 2 == 1, blocks[2], blocks[3])
        } else {
            common
        }
    }
}

/// Where a message ends: at its first carriage return, or at the end of the buffer.
pub open spec fn message_end(text: Seq<u8>, from: int) -> int
    decreases text.len() - from,
{
    if from >= text.len() {
        text.len() as int
    } else if text[from] == 0x0D {
        from
    } else {
        message_end(text, from + 1)
    }
}

/// The part of a text buffer that is shown.
pub open spec fn message_of(text: Seq<u8>) -> Seq<u8> {
    text.take(message_end(text, 0))
}

/// Assembles decoded blocks into groups and interprets them.
///
/// Separated from the signal path so it can be driven directly from known-good blocks.
#[derive(Debug, Clone)]
pub struct GroupDecoder {
    /// Station name is built from two-character fragments, so it is held as bytes until
    /// all four fragments have arrived at least once.
    name_buffer: [u8; 8],
    name_seen: [bool; 4],
    text_buffer: [u8; 64],
    /// Radio text restarts when this toggles, which is how a station signals new content.
    text_flag: Option<bool>,
    state: RdsState,
}

impl View for GroupDecoder {
    type V = Assembly;

    closed spec fn view(&self) -> Assembly {
        Assembly {
            name: self.name_buffer@,
            name_seen: self.name_seen@,
            text: self.text_buffer@,
            text_flag: self.text_flag,
            station: self.state@,
        }
    }
}

impl Default for GroupDecoder {
    fn default() -> (decoder: Self)
        ensures
            decoder@ == Assembly::empty(),
    {
        Self::new()
    }
}

impl GroupDecoder {
    pub fn new() -> (decoder: Self)
        ensures
            decoder@ == Assembly::empty(),
            decoder@.wf(),
    {
        let decoder = Self {
            name_buffer: [0x20u8; 8],
            name_seen: [false; 4],
            text_buffer: [0x20u8; 64],
            text_flag: None,
            state: RdsState::default(),
        };
        assert(decoder.name_buffer@ =~= blank(8));
        assert(decoder.name_seen@ =~= Seq::new(4, |i: int| false));
        assert(decoder.text_buffer@ =~= blank(64));
        decoder
    }

    pub fn state(&self) -> (state: &RdsState)
        ensures
            state@ == self@.station,
    {
        &self.state
    }

    pub fn reset(&mut self)
        ensures
            final(self)@ == Assembly::empty(),
    {
        *self = Self::new();
    }

    /// Feeds one complete group: four blocks of sixteen information bits each.
    pub fn push_group(&mut self, blocks: [u16; 4])
        requires
            old(self)@.station.groups_decoded < u64::MAX,
        ensures
            final(self)@ == old(self)@.with_group(blocks@),
    {
        self.state.groups_decoded = self.state.groups_decoded + 1;
        self.state.program_id = Some(blocks[0]);

        let b: u16 = blocks[1];
        let group_type: u16 = b / 4096;
        let version_b = b / 2048 % 2 == 1;
        self.state.traffic_program = b / 1024 % 2 == 1;
        self.state.program_type = Some((b / 32 % 32) as u8);

        match group_type {
            0 => self.decode_station_name(b, blocks[3]),
            2 => self.decode_radio_text(b, version_b, blocks[2], blocks[3]),
            _ => {},
        }
    }

    /// Group type 0 carries the station name two characters at a time, with the low two
    /// bits of block B saying which pair.
    fn decode_station_name(&mut self, b: u16, d: u16)
        ensures
            final(self)@ == old(self)@.with_name(b, d),
    {
        let segment: usize = (b % 4) as usize;
        let offset: usize = segment * 2;
        self.name_buffer[offset] = (d / 0x100) as u8;
        self.name_buffer[offset + 1] = (d % 0x100) as u8;
        self.name_seen[segment] = true;

        // Publish only once every segment has been seen, so the display never shows a name
        // half-built out of two different stations after retuning.
        if self.name_seen[0] && self.name_seen[1] && self.name_seen[2] && self.name_seen[3] {
            self.state.station_name = sanitise(self.name_buffer.as_slice());
        }
    }

    /// Group type 2 carries radio text: four characters per group in version A, two in
    /// version B.
    pub fn decode_radio_text(&mut self, b: u16, version_b: bool, c: u16, d: u16)
        ensures
            final(self)@ == old(self)@.with_text(b, version_b, c, d),
    {
        let segment: usize = (b % 16) as usize;
        let flag = b / 16 % 2 == 1;

        // A toggled flag means the station has started sending different text; keeping the
        // old characters would splice two messages together.
        let same = match self.text_flag {
            Some(current) => current == flag,
            None => false,
        };
        if !same {
            self.text_buffer = [0x20u8; 64];
            self.text_flag = Some(flag);
            assert(self.text_buffer@ =~= blank(64));
        }

        if version_b {
            self.text_buffer[segment * 2] = (d / 0x100) as u8;
            self.text_buffer[segment * 2 + 1] = (d % 0x100) as u8;
        } else {
            self.text_buffer[segment * 4] = (c / 0x100) as u8;
            self.text_buffer[segment * 4 + 1] = (c % 0x100) as u8;
            self.text_buffer[segment * 4 + 2] = (d / 0x100) as u8;
            self.text_buffer[segment * 4 + 3] = (d % 0x100) as u8;
        }

        // A carriage return terminates the message early rather than padding to 64.
        let mut end: usize = 0;
        while end < 64 && self.text_buffer[end] != 0x0D
            invariant
                end <= 64,
                message_end(self.text_buffer@, 0) == message_end(self.text_buffer@, end as int),
            decreases 64 - end,
        {
            end += 1;
        }
        self.state.radio_text =
        sanitise(vstd::slice::slice_subrange(self.text_buffer.as_slice(), 0, end));
    }
}

/// The state of the search for block boundaries, and what has been put together so far.
#[verifier::ext_equal]
pub struct Framing {
    /// The previous symbol, for the differential decode.
    pub previous: Option<bool>,
    /// The last twenty-six bits.
    pub window: u32,
    /// How many bits have arrived since the last boundary, up to twenty-six.
    pub fill: nat,
    pub synchronised: bool,
    /// Which block of the group is expected next.
    pub index: nat,
    pub group: Seq<u16>,
    /// Whether every block of the present group so far belonged where it stood.
    pub whole: bool,
    /// Consecutive failed blocks.
    pub misses: nat,
    pub assembly: Assembly,
}

/// Failed blocks in a row that are put up with before the search starts again.
pub const TOLERATED_MISSES: u32 = 8;

/// Whether an offset belongs at a position in a group. Version B groups substitute C' for C,
/// so either is accepted there.
pub open spec fn belongs(index: nat, offset: Option<Offset>) -> bool {
    match offset {
        None => false,
        Some(o) => if index == 0 {
            o is A
        } else if index == 1 {
            o is B
        } else if index == 2 {
            o is C || o is CPrime
        } else {
            o is D
        },
    }
}

impl Framing {
    /// Nothing has been received.
    pub open spec fn fresh() -> Framing {
        Framing {
            previous: None,
            window: 0,
            fill: 0,
            synchronised: false,
            index: 0,
            group: Seq::new(4, |i: int| 0u16),
            whole: true,
            misses: 0,
            assembly: Assembly::empty(),
        }
    }

    /// The window holds at most twenty-six bits, the position is inside a group, and no more
    /// failures are outstanding than synchronisation puts up with.
    pub open spec fn wf(self) -> bool {
        &&& self.fill <= 26
        &&& self.index < 4
        &&& self.group.len() == 4
        &&& self.misses <= TOLERATED_MISSES + 1
        &&& self.synchronised ==> self.misses <= TOLERATED_MISSES
    }

    /// After the block in the window has been counted, as valid or not.
    pub open spec fn counting(self, valid: bool) -> Framing {
        let station = self.assembly.station;
        Framing {
            whole: (self.index == 0 || self.whole) && valid,
            misses: if valid {
                0
            } else {
                self.misses + 1
            },
            assembly: Assembly {
                station: if valid {
                    Station { blocks_valid: station.blocks_valid + 1, ..station }
                } else {
                    Station { blocks_invalid: station.blocks_invalid + 1, ..station }
                },
                ..self.assembly
            },
            ..self
        }
    }

    /// After the block in the window has been placed in its group; the fourth one completes
    /// the group, which is interpreted only where all four belonged.
    pub open spec fn placing(self) -> Framing {
        let group = self.group.update(
            self.index as int,
            ((self.window >> 10) & 0xFFFF) as u16,
        );
        if self.index == 3 {
            Framing {
                group,
                index: 0,
                assembly: if self.whole {
                    self.assembly.with_group(group)
                } else {
                    self.assembly
                },
                ..self
            }
        } else {
            Framing { group, index: self.index + 1, ..self }
        }
    }

    /// After the block in the window has been taken: counted, and either placed in its group
    /// or, after too many failures, given up together with synchronisation.
    pub open spec fn consuming(self) -> Framing {
        let counted = self.counting(belongs(self.index, spec_classify(self.window)));
        if counted.misses > TOLERATED_MISSES {
            Framing { synchronised: false, index: 0, fill: 0, ..counted }
        } else {
            counted.placing()
        }
    }

    /// After one more data bit.
    ///
    /// In step, a block is taken every twenty-six bits. Out of step every position is tried
    /// until an A block shows up, which gives a known group boundary.
    pub open spec fn with_bit(self, bit: bool) -> Framing {
        let shifted = Framing {
            window: ((self.window << 1) | (if bit {
                1u32
            } else {
                0
            })) & 0x3FF_FFFF,
            fill: if self.fill < 26 {
                self.fill + 1
            } else {
                26
            },
            ..self
        };
        if shifted.fill < 26 {
            shifted
        } else if self.synchronised {
            Framing { fill: 0, ..shifted }.consuming()
        } else if spec_classify(shifted.window) == Some(Offset::A) {
            Framing { synchronised: true, index: 0, misses: 0, fill: 0, ..shifted }.consuming()
        } else {
            shifted
        }
    }

    /// After one more symbol: a data bit is the change from the symbol before it.
    pub open spec fn with_symbol(self, symbol: bool) -> Framing {
        let next = Framing { previous: Some(symbol), ..self };
        match self.previous {
            None => next,
            Some(previous) => next.with_bit(previous != symbol),
        }
    }

    /// No counter is at its limit.
    pub open spec fn can_count(self) -> bool {
        let station = self.assembly.station;
        &&& station.blocks_valid < u64::MAX
        &&& station.blocks_invalid < u64::MAX
        &&& station.groups_decoded < u64::MAX
    }
}

/// Recovers RDS blocks from the symbols of the data subcarrier.
#[derive(Debug)]
pub struct RdsDecoder {
    /// Previous biphase decision, for the differential decode.
    previous_bit: Option<bool>,
    /// Sliding 26-bit window over the recovered bitstream.
    window: u32,
    window_fill: u32,
    synchronised: bool,
    /// Which block of the group is expected next.
    block_index: usize,
    group: [u16; 4],
    /// Whether every block of the present group so far checked out.
    whole: bool,
    /// Consecutive failed blocks before sync is abandoned.
    misses: u32,
    decoder: GroupDecoder,
}

impl View for RdsDecoder {
    type V = Framing;

    closed spec fn view(&self) -> Framing {
        Framing {
            previous: self.previous_bit,
            window: self.window,
            fill: self.window_fill as nat,
            synchronised: self.synchronised,
            index: self.block_index as nat,
            group: self.group@,
            whole: self.whole,
            misses: self.misses as nat,
            assembly: self.decoder@,
        }
    }
}

impl Default for RdsDecoder {
    fn default() -> (decoder: Self)
        ensures
            decoder@ == Framing::fresh(),
    {
        Self::new()
    }
}

impl RdsDecoder {
    pub fn new() -> (decoder: Self)
        ensures
            decoder@ == Framing::fresh(),
            decoder@.wf(),
    {
        let decoder = Self {
            previous_bit: None,
            window: 0,
            window_fill: 0,
            synchronised: false,
            block_index: 0,
            group: [0u16; 4],
            whole: true,
            misses: 0,
            decoder: GroupDecoder::new(),
        };
        assert(decoder.group@ =~= Seq::new(4, |i: int| 0u16));
        decoder
    }

    pub fn state(&self) -> (state: &RdsState)
        ensures
            state@ == self@.assembly.station,
    {
        self.decoder.state()
    }

    pub fn is_synchronised(&self) -> (synchronised: bool)
        ensures
            synchronised == self@.synchronised,
    {
        self.synchronised
    }

    /// Forgets everything received. The blocks of an unfinished group stay where they are
    /// and are overwritten before they are looked at.
    pub fn reset(&mut self)
        ensures
            final(self)@ == (Framing { group: old(self)@.group, ..Framing::fresh() }),
            old(self)@.group.len() == 4 ==> final(self)@.wf(),
    {
        self.previous_bit = None;
        self.window = 0;
        self.window_fill = 0;
        self.synchronised = false;
        self.block_index = 0;
        self.whole = true;
        self.misses = 0;
        self.decoder.reset();
    }

    /// Takes one biphase decision.
    ///
    /// The data is differentially encoded, so a bit is the change between consecutive
    /// symbols rather than the symbol itself. That makes it immune to the demodulator
    /// settling on the opposite phase.
    pub fn push_symbol(&mut self, symbol: bool)
        requires
            old(self)@.wf(),
            old(self)@.can_count(),
        ensures
            final(self)@ == old(self)@.with_symbol(symbol),
            final(self)@.wf(),
    {
        let previous = self.previous_bit;
        self.previous_bit = Some(symbol);
        match previous {
            Some(prev) => self.push_bit(prev != symbol),
            None => {},
        }
    }

    /// Takes one data bit.
    pub fn push_bit(&mut self, bit: bool)
        requires
            old(self)@.wf(),
            old(self)@.can_count(),
        ensures
            final(self)@ == old(self)@.with_bit(bit),
            final(self)@.wf(),
    {
        self.window = ((self.window << 1) | (if bit {
            1u32
        } else {
            0
        })) & 0x3FF_FFFF;
        if self.window_fill < 26 {
            self.window_fill = self.window_fill + 1;
        }
        if self.window_fill < 26 {
            return ;
        }
        if self.synchronised {
            // Once synchronised the blocks arrive on a fixed 26-bit cadence, so only test at
            // those boundaries rather than at every bit.
            self.window_fill = 0;
            self.consume_block();
        } else if let Some(offset) = classify(self.window) {
            // The stream carries no framing, so sync means finding a bit position where the
            // syndrome matches. Waiting for an A block gives a known group boundary.
            if offset == Offset::A {
                self.synchronised = true;
                self.block_index = 0;
                self.misses = 0;
                self.window_fill = 0;
                self.consume_block();
            }
        }
    }

    fn consume_block(&mut self)
        requires
            old(self)@.wf(),
            old(self)@.can_count(),
            old(self)@.synchronised,
        ensures
            final(self)@ == old(self)@.consuming(),
            final(self)@.wf(),
    {
        let info: u16 = ((self.window >> 10) & 0xFFFF) as u16;
        let ok = match classify(self.window) {
            None => false,
            Some(offset) => match self.block_index {
                0 => offset == Offset::A,
                1 => offset == Offset::B,
                // Version B groups substitute C' for C, so accept either in that position.
                2 => offset == Offset::C || offset == Offset::CPrime,
                _ => offset == Offset::D,
            },
        };

        self.whole = (self.block_index == 0 || self.whole) && ok;
        if ok {
            self.decoder.state.blocks_valid = self.decoder.state.blocks_valid + 1;
            self.misses = 0;
        } else {
            self.decoder.state.blocks_invalid = self.decoder.state.blocks_invalid + 1;
            self.misses = self.misses + 1;
            // Persistent failures mean the bit phase has slipped; drop back to searching.
            if self.misses > TOLERATED_MISSES {
                self.synchronised = false;
                self.block_index = 0;
                self.window_fill = 0;
                return ;
            }
        }

        self.group[self.block_index] = info;
        self.block_index = self.block_index + 1;

        if self.block_index == 4 {
            self.block_index = 0;
            // Only interpret a group whose blocks all checked out. A corrupted block here would
            // put wrong characters into the station name, and those persist on screen far
            // longer than the error that produced them.
            if self.whole {
                let group = self.group;
                self.decoder.push_group(group);
            }
        }
    }
}

/// What is shown holds printable characters only and does not end in a space.
pub proof fn sanitised_text_is_printable(bytes: Seq<u8>)
    ensures
        forall|i: int|
            0 <= i < sanitised(bytes).len() ==> ' ' <= #[trigger] sanitised(bytes)[i] <= '~',
        sanitised(bytes).len() > 0 ==> sanitised(bytes).last() != ' ',
        sanitised(bytes).len() <= bytes.len(),
{
    trimming_keeps_a_prefix(bytes.map_values(|b: u8| shown(b)));
}

proof fn trimming_keeps_a_prefix(text: Seq<char>)
    ensures
        ({
            let kept = without_trailing_spaces(text);
            &&& kept.len() <= text.len()
            &&& kept == text.take(kept.len() as int)
            &&& kept.len() > 0 ==> kept.last() != ' '
        }),
    decreases text.len(),
{
    if text.len() > 0 && text.last() == ' ' {
        trimming_keeps_a_prefix(text.drop_last());
        let kept = without_trailing_spaces(text);
        assert(text.drop_last().take(kept.len() as int) =~= text.take(kept.len() as int));
    } else {
        assert(text.take(text.len() as int) =~= text);
    }
}

/// Each printable character is shown as itself and in its place; everything else is shown as a
/// space. What is dropped is spaces at the end and nothing else.
pub proof fn printable_text_is_shown_as_it_is(bytes: Seq<u8>, i: int, j: int)
    requires
        0 <= i <= j < bytes.len(),
        0x21 <= bytes[j] <= 0x7E,
    ensures
        j < sanitised(bytes).len(),
        sanitised(bytes)[i] == (if 0x20 <= bytes[i] <= 0x7E {
            bytes[i] as char
        } else {
            ' '
        }),
{
    let text = bytes.map_values(|b: u8| shown(b));
    assert(text[j] == bytes[j] as char);
    assert(bytes[j] as char != ' ');
    trimming_stops_before(text, j);
    trimming_keeps_a_prefix(text);
    assert(text[i] == shown(bytes[i]));
}

/// Trimming stops at the last character that is not a space.
proof fn trimming_stops_before(text: Seq<char>, j: int)
    requires
        0 <= j < text.len(),
        text[j] != ' ',
    ensures
        j < without_trailing_spaces(text).len(),
    decreases text.len(),
{
    if text.last() == ' ' {
        assert(text.last() == text[text.len() - 1]);
        trimming_stops_before(text.drop_last(), j);
    }
}

/// Printable text that does not end in a space is published unchanged.
pub proof fn printable_text_is_published_unchanged(bytes: Seq<u8>)
    requires
        bytes.len() > 0,
        forall|i: int| 0 <= i < bytes.len() ==> 0x20 <= #[trigger] bytes[i] <= 0x7E,
        bytes.last() != 0x20,
    ensures
        sanitised(bytes).len() == bytes.len(),
        forall|i: int|
            0 <= i < bytes.len() ==> #[trigger] sanitised(bytes)[i] == bytes[i] as char,
{
    let last = bytes.len() - 1;
    assert(bytes[last] == bytes.last());
    sanitised_text_is_printable(bytes);
    printable_text_is_shown_as_it_is(bytes, last, last);
    assert forall|i: int| 0 <= i < bytes.len() implies #[trigger] sanitised(bytes)[i]
        == bytes[i] as char by {
        printable_text_is_shown_as_it_is(bytes, i, last);
    }
}

/// The message is what stands before the first carriage return, or everything without one.
pub proof fn messages_are_what_precedes_the_return(text: Seq<u8>, end: int)
    requires
        0 <= end <= text.len(),
        forall|i: int| 0 <= i < end ==> #[trigger] text[i] != 0x0D,
        end < text.len() ==> text[end] == 0x0D,
    ensures
        message_of(text) == text.take(end),
{
    message_stops_at_carriage_return(text);
    let found = message_end(text, 0);
    if found < end {
        assert(text[found] != 0x0D);
    } else if end < found {
        assert(text[end] != 0x0D);
    }
}

/// The offset words are those that the standard scrambles blocks with, and each identifies its
/// own block.
pub proof fn offset_words_are_the_standard_ones(offset: Offset)
    ensures
        offset.spec_word() == (match offset {
            Offset::A => 0b00_1111_1100u16,
            Offset::B => 0b01_1001_1000,
            Offset::C => 0b01_0110_1000,
            Offset::CPrime => 0b11_0101_0000,
            Offset::D => 0b01_1011_0100,
        }),
        offset_with_word(offset.spec_word()) == Some(offset),
{
}

/// A group is read by its fields: the programme identification from its first block; and from
/// its second, most significant first, four bits of type, one of version, one that says whether
/// the station carries traffic announcements, and five of programme type. What the last five
/// bits mean is the type's affair.
pub proof fn groups_are_read_by_their_fields(
    a: Assembly,
    program_id: u16,
    kind: int,
    version_b: bool,
    traffic: bool,
    program_type: int,
    low: int,
    c: u16,
    d: u16,
)
    requires
        0 <= kind < 16,
        0 <= program_type < 32,
        0 <= low < 32,
    ensures
        ({
            let b = kind * 4096 + (if version_b {
                2048int
            } else {
                0
            }) + (if traffic {
                1024int
            } else {
                0
            }) + program_type * 32 + low;
            let after = a.with_group(seq![program_id, b as u16, c, d]);
            &&& after.station.program_id == Some(program_id)
            &&& after.station.program_type == Some(program_type as u8)
            &&& after.station.traffic_program == traffic
            &&& after.station.groups_decoded == a.station.groups_decoded + 1
            &&& after.station.blocks_valid == a.station.blocks_valid
            &&& after.station.blocks_invalid == a.station.blocks_invalid
            &&& kind != 0 ==> after.name == a.name && after.station.station_name
                == a.station.station_name
            &&& kind != 2 ==> after.text == a.text && after.station.radio_text
                == a.station.radio_text
        }),
{
    let v: int = if version_b {
        1
    } else {
        0
    };
    let t: int = if traffic {
        1
    } else {
        0
    };
    let b = kind * 4096 + v * 2048 + t * 1024 + program_type * 32 + low;
    fields_come_apart(kind, v, t, program_type, low);
    let after = a.with_group(seq![program_id, b as u16, c, d]);
    assert(seq![program_id, b as u16, c, d][1] == b);
    assert(seq![program_id, b as u16, c, d][0] == program_id);
}

proof fn fields_come_apart(kind: int, v: int, t: int, program_type: int, low: int)
    requires
        0 <= kind < 16,
        0 <= v <= 1,
        0 <= t <= 1,
        0 <= program_type < 32,
        0 <= low < 32,
    ensures
        ({
            let b = kind * 4096 + v * 2048 + t * 1024 + program_type * 32 + low;
            &&& 0 <= b < 65536
            &&& b / 4096 == kind
            &&& b / 1024 % 2 == t
            &&& b / 32 % 32 == program_type
        }),
{
    let b = kind * 4096 + v * 2048 + t * 1024 + program_type * 32 + low;
    assert(b / 1024 == kind * 4 + v * 2 + t);
    assert(b / 32 == kind * 128 + v * 64 + t * 32 + program_type);
}

/// A data bit is a change of symbol: to send a one the symbol changes, to send a zero it stays.
pub proof fn bits_are_changes_of_symbol(f: Framing, before: bool, bit: bool)
    requires
        f.previous == Some(before),
    ensures
        f.with_symbol(before != bit) == (Framing {
            previous: Some(before != bit),
            ..f
        }).with_bit(bit),
{
}

/// A carriage return ends the message: what is shown stops before the first one.
pub proof fn message_stops_at_carriage_return(text: Seq<u8>)
    ensures
        0 <= message_end(text, 0) <= text.len(),
        forall|i: int| 0 <= i < message_end(text, 0) ==> #[trigger] text[i] != 0x0D,
        message_end(text, 0) < text.len() ==> text[message_end(text, 0)] == 0x0D,
{
    message_end_is_first(text, 0);
}

proof fn message_end_is_first(text: Seq<u8>, from: int)
    requires
        0 <= from <= text.len(),
    ensures
        from <= message_end(text, from) <= text.len(),
        forall|i: int| from <= i < message_end(text, from) ==> #[trigger] text[i] != 0x0D,
        message_end(text, from) < text.len() ==> text[message_end(text, from)] == 0x0D,
    decreases text.len() - from,
{
    if from < text.len() && text[from] != 0x0D {
        message_end_is_first(text, from + 1);
    }
}

/// Groups of a type that is not interpreted update the common fields only.
pub proof fn unknown_groups_update_common_fields_only(a: Assembly, blocks: Seq<u16>)
    requires
        blocks.len() == 4,
        blocks[1] / 4096 != 0,
        blocks[1] / 4096 != 2,
    ensures
        ({
            let after = a.with_group(blocks);
            &&& after == (Assembly { station: after.station, ..a })
            &&& after.station.station_name == a.station.station_name
            &&& after.station.radio_text == a.station.radio_text
            &&& after.station.blocks_valid == a.station.blocks_valid
            &&& after.station.blocks_invalid == a.station.blocks_invalid
            &&& after.station.program_id == Some(blocks[0])
            &&& after.station.groups_decoded == a.station.groups_decoded + 1
        }),
{
}

/// Once the text flag toggles nothing of the previous message survives: outside the fragment
/// that came with it the text is blank.
pub proof fn toggled_flag_discards_the_message(
    a: Assembly,
    b: u16,
    version_b: bool,
    c: u16,
    d: u16,
    i: int,
)
    requires
        a.wf(),
        a.text_flag != Some(b as int / 16 % 2 == 1),
        0 <= i < 64,
        if version_b {
            i / 2 != b as int % 16
        } else {
            i / 4 != b as int % 16
        },
    ensures
        a.with_text(b, version_b, c, d).text[i] == 0x20,
{
}

/// While the text flag stays, a fragment lands in its place and leaves the others.
pub proof fn text_fragments_land_in_place(a: Assembly, b: u16, c: u16, d: u16, i: int)
    requires
        a.wf(),
        a.text_flag == Some(b as int / 16 % 2 == 1),
        0 <= i < 64,
    ensures
        a.with_text(b, false, c, d).text[i] == (if i / 4 != b as int % 16 {
            a.text[i]
        } else if i % 4 == 0 {
            (c / 0x100) as u8
        } else if i % 4 == 1 {
            (c % 0x100) as u8
        } else if i % 4 == 2 {
            (d / 0x100) as u8
        } else {
            (d % 0x100) as u8
        }),
{
}

/// After a run of groups.
pub open spec fn after_groups(a: Assembly, groups: Seq<Seq<u16>>) -> Assembly
    decreases groups.len(),
{
    if groups.len() == 0 {
        a
    } else {
        after_groups(a, groups.drop_last()).with_group(groups.last())
    }
}

/// Whether a group carries fragment `segment` of the station name.
pub open spec fn carries_fragment(group: Seq<u16>, segment: int) -> bool {
    group[1] / 4096 == 0 && group[1] as int % 4 == segment
}

/// The station name is withheld until every fragment has arrived: while one is missing, no
/// run of groups changes what is published.
pub proof fn name_is_withheld_until_complete(a: Assembly, groups: Seq<Seq<u16>>, segment: int)
    requires
        a.wf(),
        0 <= segment < 4,
        !a.name_seen[segment],
        forall|i: int|
            0 <= i < groups.len() ==> !carries_fragment(#[trigger] groups[i], segment),
    ensures
        after_groups(a, groups).station.station_name == a.station.station_name,
        !after_groups(a, groups).name_seen[segment],
        after_groups(a, groups).wf(),
    decreases groups.len(),
{
    if groups.len() > 0 {
        let shorter = groups.drop_last();
        assert forall|i: int| 0 <= i < shorter.len() implies !carries_fragment(
            #[trigger] shorter[i],
            segment,
        ) by {
            assert(shorter[i] == groups[i]);
        }
        name_is_withheld_until_complete(a, shorter, segment);
        assert(!carries_fragment(groups[groups.len() - 1], segment));
    }
}

/// The four fragments make up the name in whatever order they arrive.
pub proof fn name_fragments_arrive_in_any_order(a: Assembly, groups: Seq<Seq<u16>>)
    requires
        a.wf(),
        groups.len() == 4,
        forall|i: int| 0 <= i < 4 ==> (#[trigger] groups[i]).len() == 4 && groups[i][1] / 4096 == 0,
        forall|i: int, j: int|
            0 <= i < j < 4 ==> (#[trigger] groups[i])[1] as int % 4 != (#[trigger] groups[j])[1]
                as int % 4,
    ensures
        ({
            let after = after_groups(a, groups);
            &&& after.station.station_name == sanitised(after.name)
            &&& forall|i: int| #![trigger groups[i]]
                0 <= i < 4 ==> {
                    let segment = groups[i][1] as int % 4;
                    &&& after.name[2 * segment] == groups[i][3] / 0x100
                    &&& after.name[2 * segment + 1] == groups[i][3] % 0x100
                }
        }),
{
    reveal_with_fuel(after_groups, 5);
    let three = groups.drop_last();
    let two = three.drop_last();
    let one = two.drop_last();
    assert(one.drop_last() =~= seq![]);
    assert(groups.last() == groups[3] && three.last() == groups[2] && two.last() == groups[1]
        && one.last() == groups[0]);
    let a1 = a.with_group(groups[0]);
    let a2 = a1.with_group(groups[1]);
    let a3 = a2.with_group(groups[2]);
    let a4 = a3.with_group(groups[3]);
    assert(after_groups(a, groups) == a4);
    let s0 = groups[0][1] as int % 4;
    let s1 = groups[1][1] as int % 4;
    let s2 = groups[2][1] as int % 4;
    let s3 = groups[3][1] as int % 4;
    assert(a4.name_seen[s0] && a4.name_seen[s1] && a4.name_seen[s2] && a4.name_seen[s3]);
    assert forall|k: int| 0 <= k < 4 implies #[trigger] a4.name_seen[k] by {
        assert(k == s0 || k == s1 || k == s2 || k == s3);
    }
}

/// Whether a group carries radio text.
pub open spec fn carries_text(group: Seq<u16>) -> bool {
    group[1] / 4096 == 2
}

/// The text flag of a group.
pub open spec fn text_flag_of(group: Seq<u16>) -> bool {
    group[1] as int / 16 % 2 == 1
}

/// The character that a group of radio text brings for a position: four of them from its last
/// two blocks in version A, two from its last block in version B.
pub open spec fn brought(group: Seq<u16>, i: int) -> Option<u8> {
    let segment = group[1] as int % 16;
    let (c, d) = (group[2], group[3]);
    if group[1] as int / 2048 % 2 == 1 {
        if i == 2 * segment {
            Some((d / 0x100) as u8)
        } else if i == 2 * segment + 1 {
            Some((d % 0x100) as u8)
        } else {
            None
        }
    } else if i == 4 * segment {
        Some((c / 0x100) as u8)
    } else if i == 4 * segment + 1 {
        Some((c % 0x100) as u8)
    } else if i == 4 * segment + 2 {
        Some((d / 0x100) as u8)
    } else if i == 4 * segment + 3 {
        Some((d % 0x100) as u8)
    } else {
        None
    }
}

/// The flag of the last group of radio text in a run.
pub open spec fn last_text_flag(groups: Seq<Seq<u16>>) -> Option<bool>
    decreases groups.len(),
{
    if groups.len() == 0 {
        None
    } else if carries_text(groups.last()) {
        Some(text_flag_of(groups.last()))
    } else {
        last_text_flag(groups.drop_last())
    }
}

/// The last character that a run of groups brought for a position since the text flag last
/// was other than `flag`; a space where none did.
pub open spec fn last_brought(groups: Seq<Seq<u16>>, flag: bool, i: int) -> u8
    decreases groups.len(),
{
    if groups.len() == 0 {
        0x20
    } else if !carries_text(groups.last()) {
        last_brought(groups.drop_last(), flag, i)
    } else if text_flag_of(groups.last()) != flag {
        0x20
    } else {
        match brought(groups.last(), i) {
            Some(byte) => byte,
            None => last_brought(groups.drop_last(), flag, i),
        }
    }
}

/// The text that a run of groups adds up to.
pub open spec fn text_of(groups: Seq<Seq<u16>>) -> Seq<u8> {
    match last_text_flag(groups) {
        Some(flag) => Seq::new(64, |i: int| last_brought(groups, flag, i)),
        None => blank(64),
    }
}

/// Before a flag has come, nothing was brought under it.
proof fn nothing_under_another_flag(groups: Seq<Seq<u16>>, flag: bool, i: int)
    requires
        last_text_flag(groups) != Some(flag),
    ensures
        last_brought(groups, flag, i) == 0x20,
    decreases groups.len(),
{
    if groups.len() > 0 && !carries_text(groups.last()) {
        nothing_under_another_flag(groups.drop_last(), flag, i);
    }
}

/// The radio text is what a run of groups adds up to: each position shows the last character
/// received there since the text flag last changed, up to the first carriage return. Without
/// a group of radio text it stays as it was.
pub proof fn radio_text_is_what_arrived(a: Assembly, groups: Seq<Seq<u16>>)
    requires
        a.wf(),
        a.text == blank(64),
        a.text_flag is None,
    ensures
        ({
            let after = after_groups(a, groups);
            &&& after.wf()
            &&& after.text == text_of(groups)
            &&& after.text_flag == last_text_flag(groups)
            &&& after.station.radio_text == if last_text_flag(groups) is Some {
                sanitised(message_of(text_of(groups)))
            } else {
                a.station.radio_text
            }
        }),
    decreases groups.len(),
{
    if groups.len() > 0 {
        let shorter = groups.drop_last();
        let group = groups.last();
        radio_text_is_what_arrived(a, shorter);
        let before = after_groups(a, shorter);
        let after = before.with_group(group);
        if carries_text(group) {
            let flag = text_flag_of(group);
            assert forall|i: int| 0 <= i < 64 implies after.text[i] == #[trigger] text_of(
                groups,
            )[i] by {
                if last_text_flag(shorter) != Some(flag) {
                    nothing_under_another_flag(shorter, flag, i);
                } else {
                    assert(before.text[i] == last_brought(shorter, flag, i));
                }
            }
            assert(after.text =~= text_of(groups));
        } else {
            assert(text_of(groups) =~= text_of(shorter)) by {
                if let Some(flag) = last_text_flag(shorter) {
                    assert forall|i: int| last_brought(groups, flag, i) == last_brought(
                        shorter,
                        flag,
                        i,
                    ) by {}
                }
            }
        }
    }
}

/// A fragment of radio text shows what the groups before it and its own add up to: at each
/// position the last character received there since the text flag last changed, up to the
/// first carriage return. Nothing else that is published changes.
pub proof fn text_fragments_show_what_arrived(
    a: Assembly,
    groups: Seq<Seq<u16>>,
    group: Seq<u16>,
)
    requires
        a.wf(),
        a.text == blank(64),
        a.text_flag is None,
        carries_text(group),
    ensures
        ({
            let before = after_groups(a, groups);
            let version_b = group[1] as int / 2048 % 2 == 1;
            before.with_text(group[1], version_b, group[2], group[3]).station == (Station {
                radio_text: sanitised(message_of(text_of(groups.push(group)))),
                ..before.station
            })
        }),
{
    radio_text_is_what_arrived(a, groups.push(group));
    assert(groups.push(group).drop_last() =~= groups);
    assert(groups.push(group).last() == group);
}

/// A fragment of radio text changes the text and nothing else that is published.
pub proof fn text_fragments_publish_text_only(
    a: Assembly,
    b: u16,
    version_b: bool,
    c: u16,
    d: u16,
)
    ensures
        ({
            let after = a.with_text(b, version_b, c, d);
            &&& after.station == (Station { radio_text: after.station.radio_text, ..a.station })
            &&& after.name == a.name
            &&& after.name_seen == a.name_seen
        }),
{
}

/// Differential decoding does not depend on the phase that the demodulator settled on: with
/// every symbol inverted the same data comes out.
pub proof fn inverted_symbols_decode_alike(upright: Framing, inverted: Framing, symbol: bool)
    requires
        inverted == (Framing {
            previous: match upright.previous {
                Some(p) => Some(!p),
                None => None,
            },
            ..upright
        }),
    ensures
        inverted.with_symbol(!symbol) == (Framing {
            previous: Some(!symbol),
            ..upright.with_symbol(symbol)
        }),
{
}

/// The bits of a block, most significant first.
pub open spec fn block_bit(block: u32, k: int) -> bool {
    (block >> ((25 - k) as u32)) & 1 == 1
}

/// After the first `k` bits of a block.
pub open spec fn with_block_bits(f: Framing, block: u32, k: nat) -> Framing
    decreases k,
{
    if k == 0 {
        f
    } else {
        with_block_bits(f, block, (k - 1) as nat).with_bit(block_bit(block, k - 1))
    }
}

/// A window after the first `k` bits of a block have shifted in.
pub open spec fn slid(window: u32, block: u32, k: nat) -> u32 {
    if k == 0 {
        window
    } else {
        ((window << (k as u32)) | (block >> ((26 - k) as u32))) & 0x3FF_FFFF
    }
}

/// The next bit of a block shifts in behind those before it, and the last completes it.
proof fn bits_slide_in(window: u32, block: u32, k: nat)
    requires
        block < 0x400_0000,
        1 <= k <= 26,
    ensures
        slid(window, block, k) == ((slid(window, block, (k - 1) as nat) << 1) | (if block_bit(
            block,
            k - 1,
        ) {
            1u32
        } else {
            0
        })) & 0x3FF_FFFF,
        slid(window, block, 26) == block,
{
    let before = slid(window, block, (k - 1) as nat);
    let n = k as u32;
    let m = (k - 1) as u32;
    let low: u32 = if block_bit(block, k - 1) {
        1
    } else {
        0
    };
    let shift = (26 - k) as u32;
    assert(((window << 26u32) | (block >> 0u32)) & 0x3FF_FFFF == block) by (bit_vector)
        requires
            block < 0x400_0000,
    ;
    if k == 1 {
        assert(((window << 1) | low) & 0x3FF_FFFF == ((window << 1u32) | (block >> 25u32))
            & 0x3FF_FFFF) by (bit_vector)
            requires
                low == (if (block >> 25u32) & 1 == 1 {
                    1u32
                } else {
                    0
                }),
                block < 0x400_0000,
        ;
    } else {
        assert(((before << 1) | low) & 0x3FF_FFFF == ((window << n) | (block >> shift))
            & 0x3FF_FFFF) by (bit_vector)
            requires
                before == ((window << m) | (block >> (shift + 1) as u32)) & 0x3FF_FFFF,
                low == (if (block >> shift) & 1 == 1 {
                    1u32
                } else {
                    0
                }),
                n == m + 1,
                shift == 26 - n,
                2 <= n <= 26,
        ;
    }
}

/// From a boundary, the bits of a block shift into the window one by one, and nothing else
/// happens before the last of them.
proof fn bits_fill_the_window(f: Framing, block: u32, k: nat)
    requires
        f.fill == 0,
        block < 0x400_0000,
        k <= 25,
    ensures
        with_block_bits(f, block, k) == (Framing {
            window: slid(f.window, block, k),
            fill: k,
            ..f
        }),
    decreases k,
{
    if k > 0 {
        bits_fill_the_window(f, block, (k - 1) as nat);
        bits_slide_in(f.window, block, k);
    }
}

/// The twenty-sixth bit completes the block in the window.
proof fn last_bit_completes_the_block(f: Framing, block: u32)
    requires
        f.fill == 0,
        block < 0x400_0000,
    ensures
        with_block_bits(f, block, 26) == (if f.synchronised {
            Framing { window: block, ..f }.consuming()
        } else if spec_classify(block) == Some(Offset::A) {
            Framing { window: block, synchronised: true, index: 0, misses: 0, ..f }.consuming()
        } else {
            Framing { window: block, fill: 26, ..f }
        }),
{
    bits_fill_the_window(f, block, 25);
    bits_slide_in(f.window, block, 26);
    let held = with_block_bits(f, block, 25);
    assert(with_block_bits(f, block, 26) == held.with_bit(block_bit(block, 25)));
}

/// While the bits of a block shift in, no window before the last is full and passes for an A
/// block.
pub open spec fn no_false_start(f: Framing, block: u32) -> bool {
    forall|k: nat|
        1 <= k < 26 && f.fill + k >= 26 ==> spec_classify(#[trigger] slid(f.window, block, k))
            != Some(Offset::A)
}

/// Out of step, the bits of a block shift in and nothing else happens until a full window
/// passes for an A block.
proof fn searching_bits_slide_in(f: Framing, block: u32, k: nat)
    requires
        f.fill <= 26,
        !f.synchronised,
        block < 0x400_0000,
        k <= 25,
        no_false_start(f, block),
    ensures
        with_block_bits(f, block, k) == (Framing {
            window: slid(f.window, block, k),
            fill: if f.fill + k <= 26 {
                f.fill + k
            } else {
                26
            },
            ..f
        }),
    decreases k,
{
    if k > 0 {
        searching_bits_slide_in(f, block, (k - 1) as nat);
        bits_slide_in(f.window, block, k);
        assert(f.fill + k >= 26 ==> spec_classify(slid(f.window, block, k)) != Some(Offset::A));
    }
}

/// A decoder that is still searching falls into step at the first A block, wherever in the
/// stream it begins and whatever came before: it is then at the second block of the group,
/// and has counted one more valid block.
pub proof fn searching_finds_the_first_block(f: Framing, info: u16)
    requires
        f.wf(),
        !f.synchronised,
        no_false_start(f, spec_encode_block(info, Offset::A)),
    ensures
        ({
            let station = f.assembly.station;
            with_block_bits(f, spec_encode_block(info, Offset::A), 26) == (Framing {
                window: spec_encode_block(info, Offset::A),
                fill: 0,
                synchronised: true,
                index: 1,
                group: f.group.update(0, info),
                whole: true,
                misses: 0,
                assembly: Assembly {
                    station: Station { blocks_valid: station.blocks_valid + 1, ..station },
                    ..f.assembly
                },
                ..f
            })
        }),
{
    let block = spec_encode_block(info, Offset::A);
    encoded_blocks_classify_back(info, Offset::A);
    searching_bits_slide_in(f, block, 25);
    bits_slide_in(f.window, block, 26);
    let held = with_block_bits(f, block, 25);
    assert(with_block_bits(f, block, 26) == held.with_bit(block_bit(block, 25)));
}

/// After the four blocks of a group, sent one after the other.
pub open spec fn with_encoded_group(f: Framing, info: Seq<u16>, third: Offset) -> Framing {
    let a = with_block_bits(f, spec_encode_block(info[0], Offset::A), 26);
    let b = with_block_bits(a, spec_encode_block(info[1], Offset::B), 26);
    let c = with_block_bits(b, spec_encode_block(info[2], third), 26);
    with_block_bits(c, spec_encode_block(info[3], Offset::D), 26)
}

/// The three blocks after the first, in step, complete the group.
proof fn rest_of_group_is_decoded(f1: Framing, info: Seq<u16>, third: Offset)
    requires
        f1.wf(),
        f1.synchronised,
        f1.index == 1,
        f1.fill == 0,
        f1.misses == 0,
        f1.whole,
        info.len() == 4,
        f1.group[0] == info[0],
        third is C || third is CPrime,
    ensures
        ({
            let b = with_block_bits(f1, spec_encode_block(info[1], Offset::B), 26);
            let c = with_block_bits(b, spec_encode_block(info[2], third), 26);
            let after = with_block_bits(c, spec_encode_block(info[3], Offset::D), 26);
            let station = f1.assembly.station;
            let counted = Assembly {
                station: Station { blocks_valid: station.blocks_valid + 3, ..station },
                ..f1.assembly
            };
            &&& after.assembly == counted.with_group(info)
            &&& after.synchronised
            &&& after.misses == 0
            &&& after.fill == 0
            &&& after.index == 0
            &&& after.wf()
        }),
{
    let b1 = spec_encode_block(info[1], Offset::B);
    let b2 = spec_encode_block(info[2], third);
    let b3 = spec_encode_block(info[3], Offset::D);
    encoded_blocks_classify_back(info[1], Offset::B);
    encoded_blocks_classify_back(info[2], third);
    encoded_blocks_classify_back(info[3], Offset::D);
    last_bit_completes_the_block(f1, b1);
    let f2 = with_block_bits(f1, b1, 26);
    assert(f2.synchronised && f2.index == 2 && f2.fill == 0 && f2.misses == 0 && f2.whole);
    last_bit_completes_the_block(f2, b2);
    let f3 = with_block_bits(f2, b2, 26);
    assert(f3.synchronised && f3.index == 3 && f3.fill == 0 && f3.misses == 0 && f3.whole);
    last_bit_completes_the_block(f3, b3);
    let f4 = with_block_bits(f3, b3, 26);
    let group = f3.group.update(3, info[3]);
    assert(group =~= info);
    assert(f4.assembly == f3.counting(true).assembly.with_group(group));
    let station = f1.assembly.station;
    assert(f3.counting(true).assembly == (Assembly {
        station: Station { blocks_valid: station.blocks_valid + 3, ..station },
        ..f1.assembly
    }));
}

/// An encoded group is decoded. Its 104 bits count four valid blocks, hand exactly its
/// information words on, and leave the decoder in step at the next group. That holds from a
/// boundary (nothing received yet, or a group just finished in step), and of a decoder that is
/// still searching, after whatever bits, unless a window across the beginning of the group
/// passes for an A block.
pub proof fn encoded_groups_are_decoded(f: Framing, info: Seq<u16>, third: Offset)
    requires
        f.wf(),
        ({
            ||| f.fill == 0 && f.index == 0
            ||| !f.synchronised && no_false_start(f, spec_encode_block(info[0], Offset::A))
        }),
        info.len() == 4,
        third is C || third is CPrime,
    ensures
        ({
            let after = with_encoded_group(f, info, third);
            let station = f.assembly.station;
            let counted = Assembly {
                station: Station { blocks_valid: station.blocks_valid + 4, ..station },
                ..f.assembly
            };
            &&& after.assembly == counted.with_group(info)
            &&& after.synchronised
            &&& after.misses == 0
            &&& after.fill == 0
            &&& after.index == 0
            &&& after.wf()
        }),
{
    let b0 = spec_encode_block(info[0], Offset::A);
    encoded_blocks_classify_back(info[0], Offset::A);
    if f.fill == 0 && f.index == 0 {
        last_bit_completes_the_block(f, b0);
    } else {
        searching_finds_the_first_block(f, info[0]);
    }
    let f1 = with_block_bits(f, b0, 26);
    assert(f1.synchronised && f1.index == 1 && f1.fill == 0 && f1.misses == 0 && f1.whole);
    assert(f1.group[0] == info[0]);
    rest_of_group_is_decoded(f1, info, third);
}

/// One differs from the other in its block counters at most.
pub open spec fn same_but_counters(one: Assembly, other: Assembly) -> bool {
    one == (Assembly {
        station: Station {
            blocks_valid: one.station.blocks_valid,
            blocks_invalid: one.station.blocks_invalid,
            ..other.station
        },
        ..other
    })
}

/// After a run of blocks, sent one after the other.
pub open spec fn with_blocks(f: Framing, blocks: Seq<u32>) -> Framing
    decreases blocks.len(),
{
    if blocks.len() == 0 {
        f
    } else {
        with_block_bits(with_blocks(f, blocks.drop_last()), blocks.last(), 26)
    }
}

/// The first `n` blocks of a group belong where they stand.
pub open spec fn all_belong(blocks: Seq<u32>, n: int) -> bool {
    forall|i: int| 0 <= i < n ==> belongs(i as nat, spec_classify(#[trigger] blocks[i]))
}

/// No more than `n` bits have arrived since synchronisation was lost, if it was found again.
spec fn regained(f: Framing, n: int) -> bool {
    &&& f.wf()
    &&& f.fill <= n
    &&& f.synchronised ==> 26 * f.index + f.fill <= n
}

proof fn regaining_takes_time(f: Framing, bit: bool, n: int)
    requires
        regained(f, n),
        n + 1 < 104,
    ensures
        regained(f.with_bit(bit), n + 1),
        same_but_counters(f.with_bit(bit).assembly, f.assembly),
{
    let after = f.with_bit(bit);
    if f.synchronised && f.fill >= 25 {
        assert(f.index <= 2);
    }
}

proof fn searching_completes_nothing(f: Framing, block: u32, k: nat, n: int)
    requires
        regained(f, n),
        n + k < 104,
    ensures
        regained(with_block_bits(f, block, k), n + k),
        same_but_counters(with_block_bits(f, block, k).assembly, f.assembly),
    decreases k,
{
    if k > 0 {
        searching_completes_nothing(f, block, (k - 1) as nat, n);
        regaining_takes_time(
            with_block_bits(f, block, (k - 1) as nat),
            block_bit(block, k - 1),
            n + k - 1,
        );
    }
}

/// After some blocks of a group the decoder is in step at the next, or has lost step with too
/// few bits since to have completed another group.
proof fn blocks_in_step_or_lost(f: Framing, blocks: Seq<u32>)
    requires
        f.wf(),
        f.fill == 0,
        f.index == 0,
        0 < blocks.len() <= 3,
        forall|i: int| 0 <= i < blocks.len() ==> #[trigger] blocks[i] < 0x400_0000,
        f.synchronised || belongs(0, spec_classify(blocks[0])),
    ensures
        ({
            let after = with_blocks(f, blocks);
            &&& after.wf()
            &&& same_but_counters(after.assembly, f.assembly)
            &&& {
                ||| {
                    &&& after.synchronised
                    &&& after.index == blocks.len()
                    &&& after.fill == 0
                    &&& after.whole == all_belong(blocks, blocks.len() as int)
                }
                ||| regained(after, 26 * (blocks.len() - 1))
                    && !all_belong(blocks, blocks.len() as int)
            }
        }),
    decreases blocks.len(),
{
    let n = blocks.len() as int;
    let shorter = blocks.drop_last();
    let last = blocks.last();
    let reached = with_blocks(f, shorter);
    assert(last == blocks[n - 1]);
    if n == 1 {
        assert(shorter =~= seq![]);
        last_bit_completes_the_block(f, last);
        assert(all_belong(blocks, 1) <==> belongs(0, spec_classify(last))) by {
            assert(blocks[0] == last);
        }
    } else {
        assert forall|i: int| 0 <= i < shorter.len() implies #[trigger] shorter[i] < 0x400_0000 by {
            assert(shorter[i] == blocks[i]);
        }
        assert(shorter[0] == blocks[0]);
        blocks_in_step_or_lost(f, shorter);
        assert(all_belong(blocks, n - 1) <==> all_belong(shorter, n - 1)) by {
            assert forall|i: int| 0 <= i < n - 1 implies shorter[i] == blocks[i] by {}
            if all_belong(blocks, n - 1) {
                assert forall|i: int| 0 <= i < n - 1 implies belongs(
                    i as nat,
                    spec_classify(#[trigger] shorter[i]),
                ) by {
                    assert(belongs(i as nat, spec_classify(blocks[i])));
                }
            }
            if all_belong(shorter, n - 1) {
                assert forall|i: int| 0 <= i < n - 1 implies belongs(
                    i as nat,
                    spec_classify(#[trigger] blocks[i]),
                ) by {
                    assert(belongs(i as nat, spec_classify(shorter[i])));
                }
            }
        }
        assert(all_belong(blocks, n) <==> all_belong(blocks, n - 1) && belongs(
            (n - 1) as nat,
            spec_classify(last),
        )) by {
            if all_belong(blocks, n) {
                assert(belongs((n - 1) as nat, spec_classify(blocks[n - 1])));
            }
        }
        if reached.synchronised && reached.index == n - 1 && reached.fill == 0 && reached.whole
            == all_belong(shorter, n - 1) {
            last_bit_completes_the_block(reached, last);
        } else {
            searching_completes_nothing(reached, last, 26, 26 * (n - 2));
        }
    }
}

/// Only a group whose blocks all checked out is interpreted: where one of the four failed,
/// whichever it was, nothing but the block counters changes.
pub proof fn groups_with_a_failed_block_are_dropped(f: Framing, blocks: Seq<u32>)
    requires
        f.wf(),
        f.fill == 0,
        f.index == 0,
        blocks.len() == 4,
        forall|i: int| 0 <= i < 4 ==> #[trigger] blocks[i] < 0x400_0000,
        f.synchronised || belongs(0, spec_classify(blocks[0])),
        !all_belong(blocks, 4),
    ensures
        same_but_counters(with_blocks(f, blocks).assembly, f.assembly),
{
    let shorter = blocks.drop_last();
    let last = blocks.last();
    let reached = with_blocks(f, shorter);
    assert(last == blocks[3]);
    assert forall|i: int| 0 <= i < 3 implies #[trigger] shorter[i] < 0x400_0000 by {
        assert(shorter[i] == blocks[i]);
    }
    assert(shorter[0] == blocks[0]);
    blocks_in_step_or_lost(f, shorter);
    if reached.synchronised && reached.index == 3 && reached.fill == 0 && reached.whole
        == all_belong(shorter, 3) {
        if reached.whole && belongs(3, spec_classify(last)) {
            assert forall|i: int| 0 <= i < 4 implies belongs(
                i as nat,
                spec_classify(#[trigger] blocks[i]),
            ) by {
                if i < 3 {
                    assert(belongs(i as nat, spec_classify(shorter[i])));
                }
            }
        }
        last_bit_completes_the_block(reached, last);
    } else {
        searching_completes_nothing(reached, last, 26, 52);
    }
}

/// Taking a block counts it once, as valid or as invalid, and so many failures in a row end
/// synchronisation.
pub proof fn every_block_is_counted_once(f: Framing)
    requires
        f.wf(),
    ensures
        ({
            let after = f.consuming();
            let before = f.assembly.station;
            let valid = belongs(f.index, spec_classify(f.window));
            &&& after.assembly.station.blocks_valid == before.blocks_valid + (if valid {
                1nat
            } else {
                0
            })
            &&& after.assembly.station.blocks_invalid == before.blocks_invalid + (if valid {
                0nat
            } else {
                1
            })
            &&& f.synchronised ==> (after.synchronised <==> valid || f.misses < TOLERATED_MISSES)
        }),
{
}

/// Each place of a group takes its own block: A, B, C or its substitute, and D.
pub proof fn each_place_takes_its_own_block(index: nat, offset: Offset)
    requires
        index < 4,
    ensures
        belongs(index, Some(offset)) <==> index == (match offset {
            Offset::A => 0nat,
            Offset::B => 1,
            Offset::C => 2,
            Offset::CPrime => 2,
            Offset::D => 3,
        }),
        !belongs(index, None),
{
}

/// Synchronisation survives eight failures in a row and is given up at the ninth; one good block
/// starts the count again.
pub proof fn nine_failures_end_synchronisation(f: Framing)
    requires
        f.wf(),
        f.synchronised,
    ensures
        ({
            let after = f.consuming();
            let valid = belongs(f.index, spec_classify(f.window));
            &&& valid ==> after.synchronised && after.misses == 0
            &&& !valid ==> (after.synchronised <==> f.misses < 8)
            &&& !valid && after.synchronised ==> after.misses == f.misses + 1
            &&& after.synchronised ==> after.index == (f.index + 1) % 4
            &&& !after.synchronised ==> after.index == 0 && after.fill == 0
        }),
{
}

/// A decoder that has received nothing knows nothing of a station, shows nothing, has counted
/// nothing, and is searching for a block.
pub proof fn fresh_decoders_know_nothing()
    ensures
        ({
            let f = Framing::fresh();
            let station = f.assembly.station;
            &&& f.wf()
            &&& !f.synchronised && f.fill == 0 && f.index == 0 && f.misses == 0
            &&& f.previous is None
            &&& f.assembly.wf()
            &&& station.program_id is None && station.program_type is None
            &&& station.station_name.len() == 0 && station.radio_text.len() == 0
            &&& !station.traffic_program
            &&& station.blocks_valid == 0 && station.blocks_invalid == 0
            &&& station.groups_decoded == 0
            &&& forall|k: int| 0 <= k < 4 ==> !(#[trigger] f.assembly.name_seen[k])
            &&& f.assembly.text_flag is None
            &&& forall|k: int| 0 <= k < 64 ==> #[trigger] f.assembly.text[k] == 0x20
        }),
{
}

/// A station whose four name fragments have all arrived intact is shown by its name, character
/// for character, trailing spaces aside: from a fresh start, whatever else the groups carried.
pub proof fn names_are_shown_as_they_were_sent(
    a: Assembly,
    groups: Seq<Seq<u16>>,
    name: Seq<u8>,
    i: int,
    j: int,
)
    requires
        a.wf(),
        groups.len() == 4,
        forall|k: int| 0 <= k < 4 ==> (#[trigger] groups[k]).len() == 4 && groups[k][1] / 4096 == 0,
        forall|k: int, l: int|
            0 <= k < l < 4 ==> (#[trigger] groups[k])[1] as int % 4 != (#[trigger] groups[l])[1]
                as int % 4,
        name.len() == 8,
        forall|k: int| #![trigger groups[k]]
            0 <= k < 4 ==> {
                let segment = groups[k][1] as int % 4;
                groups[k][3] == name[2 * segment] * 256 + name[2 * segment + 1]
            },
        0 <= i <= j < 8,
        0x20 <= name[i] <= 0x7E,
        0x21 <= name[j] <= 0x7E,
    ensures
        after_groups(a, groups).station.station_name.len() > j,
        after_groups(a, groups).station.station_name[i] == name[i] as char,
{
    name_fragments_arrive_in_any_order(a, groups);
    let shown_name = after_groups(a, groups).name;
    every_segment_arrives(groups, i / 2);
    every_segment_arrives(groups, j / 2);
    let p = choose|p: int| 0 <= p < 4 && (#[trigger] groups[p])[1] as int % 4 == i / 2;
    let q = choose|q: int| 0 <= q < 4 && (#[trigger] groups[q])[1] as int % 4 == j / 2;
    assert(groups[p][3] == name[2 * (i / 2)] * 256 + name[2 * (i / 2) + 1]);
    assert(groups[q][3] == name[2 * (j / 2)] * 256 + name[2 * (j / 2) + 1]);
    assert(shown_name[i] == name[i]);
    assert(shown_name[j] == name[j]);
    assert(shown_name.len() == 8) by {
        after_groups_keep_their_shape(a, groups);
    }
    printable_text_is_shown_as_it_is(shown_name, i, j);
}

proof fn after_groups_keep_their_shape(a: Assembly, groups: Seq<Seq<u16>>)
    requires
        a.wf(),
    ensures
        after_groups(a, groups).wf(),
    decreases groups.len(),
{
    if groups.len() > 0 {
        after_groups_keep_their_shape(a, groups.drop_last());
    }
}

/// Four groups that name four different segments name each of them.
proof fn every_segment_arrives(groups: Seq<Seq<u16>>, segment: int)
    requires
        groups.len() == 4,
        forall|k: int, l: int|
            0 <= k < l < 4 ==> (#[trigger] groups[k])[1] as int % 4 != (#[trigger] groups[l])[1]
                as int % 4,
        0 <= segment < 4,
    ensures
        exists|p: int| 0 <= p < 4 && (#[trigger] groups[p])[1] as int % 4 == segment,
{
    let (a, b, c, d) = (
        groups[0][1] as int % 4,
        groups[1][1] as int % 4,
        groups[2][1] as int % 4,
        groups[3][1] as int % 4,
    );
    assert(a != b && a != c && a != d && b != c && b != d && c != d);
    if a == segment {
        assert(groups[0][1] as int % 4 == segment);
    } else if b == segment {
        assert(groups[1][1] as int % 4 == segment);
    } else if c == segment {
        assert(groups[2][1] as int % 4 == segment);
    } else {
        assert(groups[3][1] as int % 4 == segment);
    }
}

} // verus!
