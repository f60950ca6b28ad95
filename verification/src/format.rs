use vstd::prelude::*;

verus! {

/// Size of the fixed save envelope header.
pub const HEADER_SIZE: usize = 0x2028;
/// Payload size of an Android game save.
pub const ANDROID_GAME_SIZE: usize = 0x7e58;
/// Payload size of a Windows PC game save.
pub const WINDOWS_GAME_SIZE: usize = 0x7e4c;
/// Size used when creating a new game save. New saves target the Android layout.
pub const GAME_SIZE: usize = 0x7e58;
/// Payload size of an Android `SuperOptions` save.
pub const OPTIONS_SIZE: usize = 0x18;
/// Largest save file the application reads.
pub const MAX_SAVE_SIZE: u64 = 0x100_0000;

/// The recognized payload kinds.
#[derive(Clone, Copy, Debug, PartialEq, Eq, Structural)]
pub enum SaveKind {
    WindowsGame,
    AndroidGame,
    AndroidOptions,
}

impl SaveKind {
    pub open spec fn spec_is_game(self) -> bool {
        self is WindowsGame || self is AndroidGame
    }

    /// Human-readable name of the payload kind.
    pub open spec fn spec_description(self) -> Seq<char> {
        match self {
            SaveKind::WindowsGame => "Windows PC game progress"@,
            SaveKind::AndroidGame => "Android game progress"@,
            SaveKind::AndroidOptions => "Android SuperOptions"@,
        }
    }

    /// Human-readable name of the payload kind.
    pub fn description(self) -> (res: &'static str)
        ensures
            res@ == self.spec_description(),
    {
        match self {
            SaveKind::WindowsGame => "Windows PC game progress",
            SaveKind::AndroidGame => "Android game progress",
            SaveKind::AndroidOptions => "Android SuperOptions",
        }
    }

    /// Whether the payload holds game progress.
    pub fn is_game(self) -> (res: bool)
        ensures
            res == self.spec_is_game(),
    {
        match self {
            SaveKind::WindowsGame | SaveKind::AndroidGame => true,
            SaveKind::AndroidOptions => false,
        }
    }
}


/// The unsigned little-endian 16-bit word at `off`.
pub open spec fn le_u16(s: Seq<u8>, off: int) -> int {
    s[off] + 256 * s[off + 1]
}

/// The unsigned little-endian 32-bit word at `off`.
pub open spec fn le_u32(s: Seq<u8>, off: int) -> int {
    s[off] + 256 * s[off + 1] + 65536 * s[off + 2] + 16777216 * s[off + 3]
}

/// The signed (two's complement) little-endian 32-bit word at `off`.
pub open spec fn le_i32(s: Seq<u8>, off: int) -> int {
    let u = le_u32(s, off);
    if u < 0x8000_0000 { u } else { u - 0x1_0000_0000 }
}

/// The four little-endian bytes of `v`.
pub open spec fn u32_le_bytes(v: int) -> Seq<u8> {
    seq![(v % 256) as u8, (v / 256 % 256) as u8, (v / 65536 % 256) as u8, (v / 16777216 % 256) as u8]
}

/// `s` with the four bytes at `off` replaced by the little-endian encoding of `v`.
pub open spec fn with_u32(s: Seq<u8>, off: int, v: int) -> Seq<u8> {
    s.take(off) + u32_le_bytes(v) + s.skip(off + 4)
}

/// Whether `size` is one of the recognized payload sizes.
pub open spec fn supported_payload_size(size: int) -> bool {
    size == ANDROID_GAME_SIZE || size == WINDOWS_GAME_SIZE || size == OPTIONS_SIZE
}

/// The outcome of validating a save envelope: the payload offset and size, or
/// the first header check that failed.
pub open spec fn spec_parse(b: Seq<u8>) -> Result<(usize, usize), ParseError> {
    let n = b.len();
    if n < HEADER_SIZE + 8 {
        Err(ParseError::TooShort { actual: n as usize, minimum: (HEADER_SIZE + 8) as usize })
    } else if le_i32(b, 0) != 0x5247_4d48 {
        Err(ParseError::InvalidMagic { found: le_i32(b, 0) as i32 })
    } else if le_i32(b, 4) != 1 {
        Err(ParseError::UnsupportedVersion { found: le_i32(b, 4) as i32 })
    } else if le_i32(b, 8) != HEADER_SIZE {
        Err(ParseError::InvalidHeaderSize { found: le_i32(b, 8) as i32, expected: HEADER_SIZE })
    } else if le_i32(b, 0x14) < 0 {
        Err(ParseError::NegativeExtraDataOffset { found: le_i32(b, 0x14) as i32 })
    } else if HEADER_SIZE + le_i32(b, 0x14) > usize::MAX {
        Err(ParseError::ExtraDataOffsetOverflow { found: le_i32(b, 0x14) as i32 })
    } else if HEADER_SIZE + le_i32(b, 0x14) > n - 8 {
        Err(
            ParseError::PayloadBeyondFile {
                payload_offset: (HEADER_SIZE + le_i32(b, 0x14)) as usize,
                file_size: n as usize,
            },
        )
    } else if !supported_payload_size(n - (HEADER_SIZE + le_i32(b, 0x14)) - 8) {
        Err(
            ParseError::UnsupportedPayloadSize {
                found: (n - (HEADER_SIZE + le_i32(b, 0x14)) - 8) as usize,
                windows_game: WINDOWS_GAME_SIZE,
                android_game: ANDROID_GAME_SIZE,
                options: OPTIONS_SIZE,
            },
        )
    } else {
        Ok(((HEADER_SIZE + le_i32(b, 0x14)) as usize, (n - (HEADER_SIZE + le_i32(b, 0x14)) - 8) as usize))
    }
}

/// A byte buffer is not a supported Nu save envelope.
#[allow(inconsistent_fields)]
#[derive(Clone, Debug, PartialEq, Eq, Structural)]
pub enum ParseError {
    TooShort { actual: usize, minimum: usize },
    InvalidMagic { found: i32 },
    UnsupportedVersion { found: i32 },
    InvalidHeaderSize { found: i32, expected: usize },
    NegativeExtraDataOffset { found: i32 },
    ExtraDataOffsetOverflow { found: i32 },
    PayloadBeyondFile { payload_offset: usize, file_size: usize },
    UnsupportedPayloadSize {
        found: usize,
        windows_game: usize,
        android_game: usize,
        options: usize,
    },
}

/// A parsed save: the whole file, the payload offset and the payload size.
#[derive(Clone, Debug)]
pub struct Save {
    pub bytes: Vec<u8>,
    pub payload: usize,
    pub payload_size: usize,
}

/// Little-endian unsigned word of the slice at `offset`.
pub fn read_le_u32(bytes: &[u8], offset: usize) -> (res: u32)
    requires
        offset + 4 <= bytes@.len(),
    ensures
        res == le_u32(bytes@, offset as int),
{
    bytes[offset] as u32 + bytes[offset + 1] as u32 * 256 + bytes[offset + 2] as u32 * 65536
        + bytes[offset + 3] as u32 * 16777216
}

/// Little-endian signed word of the slice at `offset`.
fn read_le_i32(bytes: &[u8], offset: usize) -> (res: i32)
    requires
        offset + 4 <= bytes@.len(),
    ensures
        res == le_i32(bytes@, offset as int),
{
    let u = read_le_u32(bytes, offset);
    if u < 0x8000_0000 {
        u as i32
    } else {
        (u as i64 - 0x1_0000_0000i64) as i32
    }
}

impl Save {
    /// The offsets and sizes are those of a recognized envelope: a header,
    /// the payload at `payload` and the two trailing words.
    pub open spec fn has_layout(self) -> bool {
        &&& supported_payload_size(self.payload_size as int)
        &&& self.payload >= HEADER_SIZE
        &&& self.bytes@.len() == self.payload + self.payload_size + 8
    }

    /// Validate a byte buffer as a save envelope.
    pub fn parse(bytes: Vec<u8>) -> (res: Result<Save, ParseError>)
        ensures
            match res {
                Ok(save) => {
                    &&& spec_parse(bytes@) == Ok::<(usize, usize), ParseError>((save.payload, save.payload_size))
                    &&& save.bytes@ == bytes@
                },
                Err(e) => spec_parse(bytes@) == Err::<(usize, usize), ParseError>(e),
            },
    {
        let n = bytes.len();
        if n < HEADER_SIZE + 8 {
            return Err(ParseError::TooShort { actual: n, minimum: HEADER_SIZE + 8 });
        }
        let magic = read_le_i32(bytes.as_slice(), 0);
        if magic != 0x5247_4d48 {
            return Err(ParseError::InvalidMagic { found: magic });
        }
        let version = read_le_i32(bytes.as_slice(), 4);
        if version != 1 {
            return Err(ParseError::UnsupportedVersion { found: version });
        }
        let size = read_le_i32(bytes.as_slice(), 8);
        if size != 0x2028 {
            return Err(ParseError::InvalidHeaderSize { found: size, expected: HEADER_SIZE });
        }
        let extra = read_le_i32(bytes.as_slice(), 0x14);
        if extra < 0 {
            return Err(ParseError::NegativeExtraDataOffset { found: extra });
        }
        let extra = extra as usize;
        if extra > usize::MAX - HEADER_SIZE {
            return Err(ParseError::ExtraDataOffsetOverflow { found: extra as i32 });
        }
        let payload = HEADER_SIZE + extra;
        if payload > n - 8 {
            return Err(ParseError::PayloadBeyondFile { payload_offset: payload, file_size: n });
        }
        let payload_size = n - payload - 8;
        if payload_size != ANDROID_GAME_SIZE && payload_size != WINDOWS_GAME_SIZE
            && payload_size != OPTIONS_SIZE {
            return Err(
                ParseError::UnsupportedPayloadSize {
                    found: payload_size,
                    windows_game: WINDOWS_GAME_SIZE,
                    android_game: ANDROID_GAME_SIZE,
                    options: OPTIONS_SIZE,
                },
            );
        }
        Ok(Save { bytes, payload, payload_size })
    }
}


/// Sum of the `count` little-endian words starting at `start`.
pub open spec fn word_sum(b: Seq<u8>, start: int, count: nat) -> int
    decreases count,
{
    if count == 0 {
        0
    } else {
        word_sum(b, start, (count - 1) as nat) + le_u32(b, start + 4 * (count - 1))
    }
}

/// The payload checksum: `0x005c0999` plus every little-endian payload word,
/// modulo 2^32.
pub open spec fn spec_checksum(b: Seq<u8>, payload: int, size: int) -> u32 {
    ((0x005c_0999 + word_sum(b, payload, (size / 4) as nat)) % 0x1_0000_0000) as u32
}

/// The derived slot code: the sign-extended completion field for Android game
/// saves, the stored code for Windows saves, and `0xffffffff` for options.
pub open spec fn spec_slot_code(b: Seq<u8>, payload: int, size: int) -> u32 {
    if size == ANDROID_GAME_SIZE {
        let c = le_u16(b, payload + 0x7c24);
        if c < 0x8000 { c as u32 } else { (c + 0xffff_0000) as u32 }
    } else if size == WINDOWS_GAME_SIZE {
        le_u32(b, b.len() - 4) as u32
    } else {
        0xffff_ffff
    }
}

/// The buffer with its checksum and slot code refreshed.
pub open spec fn spec_derived(b: Seq<u8>, payload: int, size: int) -> Seq<u8> {
    with_u32(
        with_u32(b, payload + size, spec_checksum(b, payload, size) as int),
        b.len() - 4,
        spec_slot_code(b, payload, size) as int,
    )
}

/// The payload kind of a payload size.
pub open spec fn kind_of_size(size: int) -> SaveKind {
    if size == WINDOWS_GAME_SIZE {
        SaveKind::WindowsGame
    } else if size == ANDROID_GAME_SIZE {
        SaveKind::AndroidGame
    } else {
        SaveKind::AndroidOptions
    }
}

proof fn lemma_u32_bytes(v: u32)
    ensures
        le_u32(u32_le_bytes(v as int), 0) == v,
        u32_le_bytes(v as int).len() == 4,
{
    assert((v % 256) + 256 * ((v / 256) % 256) + 65536 * ((v / 65536) % 256) + 16777216 * ((v
        / 16777216) % 256) == v) by (bit_vector);
}

proof fn lemma_with_u32(s: Seq<u8>, off: int, v: u32)
    requires
        0 <= off,
        off + 4 <= s.len(),
    ensures
        with_u32(s, off, v as int).len() == s.len(),
        le_u32(with_u32(s, off, v as int), off) == v,
        forall|i: int|
            0 <= i < s.len() && !(off <= i < off + 4) ==> #[trigger] with_u32(s, off, v as int)[i]
                == s[i],
{
    lemma_u32_bytes(v);
    let w = with_u32(s, off, v as int);
    assert(w[off] == u32_le_bytes(v as int)[0]);
    assert(w[off + 1] == u32_le_bytes(v as int)[1]);
    assert(w[off + 2] == u32_le_bytes(v as int)[2]);
    assert(w[off + 3] == u32_le_bytes(v as int)[3]);
}

/// Words that only depend on bytes two buffers share are equal.
proof fn lemma_word_sum_agree(b1: Seq<u8>, b2: Seq<u8>, start: int, count: nat)
    requires
        0 <= start,
        start + 4 * count <= b1.len(),
        start + 4 * count <= b2.len(),
        forall|i: int| start <= i < start + 4 * count ==> b1[i] == b2[i],
    ensures
        word_sum(b1, start, count) == word_sum(b2, start, count),
    decreases count,
{
    if count > 0 {
        let k = start + 4 * (count - 1);
        assert(b1[k] == b2[k] && b1[k + 1] == b2[k + 1] && b1[k + 2] == b2[k + 2] && b1[k + 3]
            == b2[k + 3]);
        lemma_word_sum_agree(b1, b2, start, (count - 1) as nat);
    }
}

impl Save {
    /// The payload kind, following the payload size.
    pub open spec fn spec_kind(self) -> SaveKind {
        kind_of_size(self.payload_size as int)
    }

    /// The stored checksum word equals the payload checksum.
    pub open spec fn spec_checksum_valid(self) -> bool {
        le_u32(self.bytes@, self.payload + self.payload_size) == spec_checksum(
            self.bytes@,
            self.payload as int,
            self.payload_size as int,
        )
    }

    /// The little-endian word at `offset`.
    pub fn read_u32(&self, offset: usize) -> (res: u32)
        requires
            offset + 4 <= self.bytes@.len(),
        ensures
            res == le_u32(self.bytes@, offset as int),
    {
        read_le_u32(self.bytes.as_slice(), offset)
    }

    /// Stores `value` as a little-endian word at `offset`.
    pub fn write_u32(&mut self, offset: usize, value: u32)
        requires
            offset + 4 <= old(self).bytes@.len(),
        ensures
            final(self).bytes@ == with_u32(old(self).bytes@, offset as int, value as int),
            final(self).payload == old(self).payload,
            final(self).payload_size == old(self).payload_size,
    {
        let ghost before = self.bytes@;
        let _n = self.bytes.len();
        self.bytes.set(offset, (value % 256) as u8);
        self.bytes.set(offset + 1, (value / 256 % 256) as u8);
        self.bytes.set(offset + 2, (value / 65536 % 256) as u8);
        self.bytes.set(offset + 3, (value / 16777216 % 256) as u8);
        assert(self.bytes@ =~= with_u32(before, offset as int, value as int));
    }

    /// The payload kind selected by the payload size.
    pub fn kind(&self) -> (res: SaveKind)
        requires
            self.has_layout(),
        ensures
            res == self.spec_kind(),
    {
        if self.payload_size == WINDOWS_GAME_SIZE {
            SaveKind::WindowsGame
        } else if self.payload_size == ANDROID_GAME_SIZE {
            SaveKind::AndroidGame
        } else {
            SaveKind::AndroidOptions
        }
    }

    /// The stored trailing slot code.
    pub fn slot_code(&self) -> (res: u32)
        requires
            self.has_layout(),
        ensures
            res == le_u32(self.bytes@, self.bytes@.len() - 4),
    {
        self.read_u32(self.bytes.len() - 4)
    }

    /// The payload checksum computed from the payload bytes.
    pub fn checksum(&self) -> (res: u32)
        requires
            self.has_layout(),
        ensures
            res == spec_checksum(self.bytes@, self.payload as int, self.payload_size as int),
    {
        let count = self.payload_size / 4;
        let mut sum: u32 = 0x005c_0999;
        let mut i: usize = 0;
        while i < count
            invariant
                self.has_layout(),
                count == self.payload_size / 4,
                i <= count,
                sum == (0x005c_0999 + word_sum(self.bytes@, self.payload as int, i as nat))
                    % 0x1_0000_0000,
            decreases count - i,
        {
            let _n = self.bytes.len();
            assert(4 * i + 4 <= self.payload_size) by (nonlinear_arith)
                requires
                    i < count,
                    count == self.payload_size / 4,
            ;
            let word = self.read_u32(self.payload + 4 * i);
            proof {
                let a = 0x005c_0999 + word_sum(self.bytes@, self.payload as int, i as nat);
                vstd::arithmetic::div_mod::lemma_add_mod_noop(a, word as int, 0x1_0000_0000);
                vstd::arithmetic::div_mod::lemma_small_mod(word as nat, 0x1_0000_0000);
                if sum + word < 0x1_0000_0000 {
                    vstd::arithmetic::div_mod::lemma_small_mod((sum + word) as nat, 0x1_0000_0000);
                } else {
                    let r: int = sum + word - 0x1_0000_0000;
                    vstd::arithmetic::div_mod::lemma_small_mod(r as nat, 0x1_0000_0000);
                    vstd::arithmetic::div_mod::lemma_mod_add_multiples_vanish(r, 0x1_0000_0000);
                }
                assert(word_sum(self.bytes@, self.payload as int, (i + 1) as nat) == word_sum(
                    self.bytes@,
                    self.payload as int,
                    i as nat,
                ) + word);
            }
            sum = sum.wrapping_add(word);
            i = i + 1;
        }
        sum
    }

    /// Whether the stored checksum word matches the payload.
    pub fn checksum_valid(&self) -> (res: bool)
        requires
            self.has_layout(),
        ensures
            res == self.spec_checksum_valid(),
    {
        let _n = self.bytes.len();
        self.read_u32(self.payload + self.payload_size) == self.checksum()
    }

    /// Refreshes the checksum and slot code from the payload.
    pub fn derive(&mut self)
        requires
            old(self).has_layout(),
        ensures
            final(self).payload == old(self).payload,
            final(self).payload_size == old(self).payload_size,
            final(self).bytes@ == spec_derived(
                old(self).bytes@,
                old(self).payload as int,
                old(self).payload_size as int,
            ),
            final(self).has_layout(),
            final(self).spec_checksum_valid(),
            le_u32(final(self).bytes@, final(self).bytes@.len() - 4) == spec_slot_code(
                old(self).bytes@,
                old(self).payload as int,
                old(self).payload_size as int,
            ),
            forall|i: int|
                0 <= i < old(self).payload + old(self).payload_size
                    ==> #[trigger] final(self).bytes@[i] == old(self).bytes@[i],
    {
        let ghost b = self.bytes@;
        let _n = self.bytes.len();
        let checksum_offset = self.payload + self.payload_size;
        let checksum = self.checksum();
        self.write_u32(checksum_offset, checksum);
        proof {
            lemma_with_u32(b, checksum_offset as int, checksum);
        }
        let ghost b1 = self.bytes@;
        let slot_code: u32 = if self.payload_size == ANDROID_GAME_SIZE {
            let lo = self.bytes[self.payload + 0x7c24] as u32;
            let hi = self.bytes[self.payload + 0x7c25] as u32;
            let completion = lo + 256 * hi;
            if completion < 0x8000 {
                completion
            } else {
                completion + 0xffff_0000
            }
        } else if self.payload_size == WINDOWS_GAME_SIZE {
            self.read_u32(self.bytes.len() - 4)
        } else {
            0xffff_ffff
        };
        assert(slot_code == spec_slot_code(b, self.payload as int, self.payload_size as int));
        let last = self.bytes.len() - 4;
        self.write_u32(last, slot_code);
        proof {
            lemma_with_u32(b1, last as int, slot_code);
            let n = self.payload_size as int / 4;
            lemma_word_sum_agree(b, self.bytes@, self.payload as int, n as nat);
        }
    }

    /// Whether reparsing the buffer yields this save's payload offset and size.
    pub fn validate_layout(&self) -> (res: bool)
        ensures
            res == (spec_parse(self.bytes@) == Ok::<(usize, usize), ParseError>(
                (self.payload, self.payload_size),
            )),
    {
        let copy = self.bytes.clone();
        assert(copy@ =~= self.bytes@);
        match Save::parse(copy) {
            Ok(parsed) => parsed.payload == self.payload && parsed.payload_size == self.payload_size,
            Err(_) => false,
        }
    }
}


/// Payload size of a newly created save.
pub open spec fn fresh_payload_size(options: bool) -> int {
    if options { OPTIONS_SIZE as int } else { GAME_SIZE as int }
}

/// Byte `r` of an episode record in a new game: a 3600-second Super Story
/// time (`f32` bits `0x45610000`), a 100,000-point score and clear flags.
pub open spec fn episode_default_byte(r: int) -> u8 {
    if r == 2 { 0x61 }
    else if r == 3 { 0x45 }
    else if r == 4 { 0xa0 }
    else if r == 5 { 0x86 }
    else if r == 6 { 0x01 }
    else { 0 }
}

/// Byte `i` of a new save before its trailer is derived: the envelope magic,
/// version and header size, and for a game save difficulty 5, the first area
/// available, the six Super Story targets, suit flags `0x21` and both custom
/// characters using their stored names. Every other byte is zero.
pub open spec fn fresh_template_byte(options: bool, i: int) -> u8 {
    if i == 0 { 0x48 }
    else if i == 1 { 0x4d }
    else if i == 2 { 0x47 }
    else if i == 3 { 0x52 }
    else if i == 4 { 1 }
    else if i == 8 { 0x28 }
    else if i == 9 { 0x20 }
    else if options || i < HEADER_SIZE { 0 }
    else {
        let o = i - HEADER_SIZE;
        if o == 1 { 5 }
        else if o == 0x782c { 1 }
        else if 0x7b8c <= o < 0x7bd4 { episode_default_byte((o - 0x7b8c) % 12) }
        else if o == 0x7bfc { 0x21 }
        else if o == 0x7c64 { 1 }
        else if o == 0x7c9c { 1 }
        else { 0 }
    }
}

/// A new save's bytes before its trailer is derived.
pub open spec fn fresh_template(options: bool) -> Seq<u8> {
    Seq::new(
        (HEADER_SIZE + fresh_payload_size(options) + 8) as nat,
        |i: int| fresh_template_byte(options, i),
    )
}

spec fn fresh_partial_byte(options: bool, written: int, i: int) -> u8 {
    let o = i - HEADER_SIZE;
    if !options && 0x7b8c + 12 * written <= o < 0x7bd4 { 0 } else { fresh_template_byte(options, i) }
}

impl Save {
    /// A deterministic new save: an options save when `options`, else a game save.
    pub fn fresh(options: bool) -> (res: Save)
        ensures
            res.payload == HEADER_SIZE,
            res.payload_size == fresh_payload_size(options),
            res.bytes@ == spec_derived(
                fresh_template(options),
                HEADER_SIZE as int,
                fresh_payload_size(options),
            ),
            res.has_layout(),
            res.spec_checksum_valid(),
            spec_parse(res.bytes@) == Ok::<(usize, usize), ParseError>(
                (res.payload, res.payload_size),
            ),
            forall|o: int|
                0 <= o < fresh_payload_size(options) && (options || !fresh_game_set_offset(o))
                    ==> #[trigger] res.bytes@[HEADER_SIZE + o] == 0,
    {
        let payload_size = if options { OPTIONS_SIZE } else { GAME_SIZE };
        let len = HEADER_SIZE + payload_size + 8;
        let mut bytes: Vec<u8> = vec![0u8; len];
        bytes.set(0, 0x48);
        bytes.set(1, 0x4d);
        bytes.set(2, 0x47);
        bytes.set(3, 0x52);
        bytes.set(4, 1);
        bytes.set(8, 0x28);
        bytes.set(9, 0x20);
        if !options {
            bytes.set(HEADER_SIZE + 1, 5);
            bytes.set(HEADER_SIZE + 0x782c, 1);
            bytes.set(HEADER_SIZE + 0x7bfc, 0x21);
            bytes.set(HEADER_SIZE + 0x7c64, 1);
            bytes.set(HEADER_SIZE + 0x7c9c, 1);
        }
        assert(forall|i: int| 0 <= i < len ==> #[trigger] bytes@[i] == fresh_partial_byte(options, 0, i));
        if !options {
            let mut e: usize = 0;
            while e < 6
                invariant
                    !options,
                    e <= 6,
                    len == HEADER_SIZE + GAME_SIZE + 8,
                    bytes@.len() == len,
                    forall|i: int| 0 <= i < len ==> #[trigger] bytes@[i] == fresh_partial_byte(options, e as int, i),
                decreases 6 - e,
            {
                let base = HEADER_SIZE + 0x7b8c + 12 * e;
                bytes.set(base + 2, 0x61);
                bytes.set(base + 3, 0x45);
                bytes.set(base + 4, 0xa0);
                bytes.set(base + 5, 0x86);
                bytes.set(base + 6, 0x01);
                assert forall|i: int| 0 <= i < len implies #[trigger] bytes@[i] == fresh_partial_byte(options, e + 1, i) by {
                    let o = i - HEADER_SIZE;
                    if 0x7b8c + 12 * e <= o < 0x7b8c + 12 * e + 12 {
                        assert((o - 0x7b8c) % 12 == o - 0x7b8c - 12 * e) by (nonlinear_arith)
                            requires
                                0x7b8c + 12 * e <= o < 0x7b8c + 12 * e + 12,
                        ;
                    }
                }
                e = e + 1;
            }
        }
        assert(bytes@ =~= fresh_template(options));
        let mut save = Save { bytes, payload: HEADER_SIZE, payload_size };
        let ghost template = save.bytes@;
        save.derive();
        proof {
            let b = save.bytes@;
            assert(forall|i: int| 0 <= i < 0x18 ==> b[i] == template[i]);
            assert(le_i32(b, 0) == 0x5247_4d48);
            assert(le_i32(b, 4) == 1);
            assert(le_i32(b, 8) == HEADER_SIZE);
            assert(le_i32(b, 0x14) == 0);
            assert forall|o: int|
                0 <= o < fresh_payload_size(options) && (options || !fresh_game_set_offset(o))
                    implies #[trigger] b[HEADER_SIZE + o] == 0 by {
                law_new_save_is_blank(options, o);
            }
        }
        save
    }
}


/// Whether payload offset `o` of a new game is one of the few it sets:
/// difficulty, the first area's availability, the six Super Story records,
/// the suit flags and the two custom characters' use-saved-name switches.
pub open spec fn fresh_game_set_offset(o: int) -> bool {
    ||| o == 1
    ||| o == 0x782c
    ||| 0x7b8c <= o < 0x7b8c + 6 * 12
    ||| o == 0x7bfc
    ||| o == 0x7c2c + 4 + 0x34
    ||| o == 0x7c2c + 4 + 0x6c
}

/// A new game save starts blank: every payload byte is zero except
/// difficulty 5, the first area marked available (`area_save[0].complete`
/// is 1 while `area_save[0].area_complete` stays 0), the six Super Story
/// records, suit flags `0x21` and the two use-saved-name switches, which are
/// 1.  A new SuperOptions payload is all zero.
pub proof fn law_new_save_is_blank(options: bool, o: int)
    requires
        0 <= o < fresh_payload_size(options),
    ensures
        ({
            let b = spec_derived(fresh_template(options), HEADER_SIZE as int, fresh_payload_size(options));
            &&& (options || !fresh_game_set_offset(o)) ==> b[HEADER_SIZE + o] == 0
            &&& !options && o == 1 ==> b[HEADER_SIZE + o] == 5
            &&& !options && o == 0x782c ==> b[HEADER_SIZE + o] == 1
            &&& !options && o == 0x782d ==> b[HEADER_SIZE + o] == 0
            &&& !options && o == 0x7bfc ==> b[HEADER_SIZE + o] == 0x21
            &&& !options && (o == 0x7c2c + 4 + 0x34 || o == 0x7c2c + 4 + 0x6c) ==> b[HEADER_SIZE + o] == 1
        }),
{
    let t = fresh_template(options);
    let size = fresh_payload_size(options);
    let p = HEADER_SIZE as int;
    let c = spec_checksum(t, p, size);
    let k = spec_slot_code(t, p, size);
    lemma_with_u32(t, p + size, c);
    let t1 = with_u32(t, p + size, c as int);
    lemma_with_u32(t1, t1.len() - 4, k);
    let i = p + o;
    assert(t[i] == fresh_template_byte(options, i));
}

/// Each of a new game's six Super Story records holds a one-hour time
/// limit (the `f32` bits of 3600.0, `0x45610000`), a 100,000-point score
/// target and no flags.
pub proof fn law_new_game_super_story_targets(k: int)
    requires
        0 <= k < 6,
    ensures
        ({
            let b = spec_derived(fresh_template(false), HEADER_SIZE as int, GAME_SIZE as int);
            let e = HEADER_SIZE + 0x7b8c + 12 * k;
            &&& le_u32(b, e) == 0x4561_0000
            &&& le_u32(b, e + 4) == 100_000
            &&& le_u32(b, e + 8) == 0
        }),
{
    let t = fresh_template(false);
    let size = GAME_SIZE as int;
    let p = HEADER_SIZE as int;
    let c = spec_checksum(t, p, size);
    let code = spec_slot_code(t, p, size);
    lemma_with_u32(t, p + size, c);
    let t1 = with_u32(t, p + size, c as int);
    lemma_with_u32(t1, t1.len() - 4, code);
    let e = p + 0x7b8c + 12 * k;
    assert forall|r: int| 0 <= r < 12 implies #[trigger] t[e + r] == episode_default_byte(r) by {
        assert(fresh_template_byte(false, e + r) == episode_default_byte(r)) by {
            assert((0x7b8c + 12 * k + r - 0x7b8c) % 12 == r) by (nonlinear_arith)
                requires 0 <= r < 12, 0 <= k;
        }
    }
    assert(t[e] == 0 && t[e + 1] == 0 && t[e + 2] == 0x61 && t[e + 3] == 0x45);
    assert(t[e + 4] == 0xa0 && t[e + 5] == 0x86 && t[e + 6] == 0x01 && t[e + 7] == 0);
    assert(t[e + 8] == 0 && t[e + 9] == 0 && t[e + 10] == 0 && t[e + 11] == 0);
}

/// For an Android game save, the derived slot code is the 16-bit completion
/// field sign-extended from bit 15: its low half is the completion, and its
/// high half is all ones exactly when the completion is `0x8000` or more.
/// A completion below `0x8000` is therefore the slot code itself.
pub proof fn law_android_slot_code_sign_extends(s: Save)
    requires
        s.has_layout(),
        s.spec_kind() == SaveKind::AndroidGame,
    ensures
        ({
            let b = s.bytes@;
            let d = spec_derived(b, s.payload as int, s.payload_size as int);
            let c = b[s.payload + 0x7c24] + 256 * b[s.payload + 0x7c25];
            let code = le_u32(d, d.len() - 4);
            &&& code % 0x1_0000 == c
            &&& code / 0x1_0000 == (if c >= 0x8000 { 0xffffint } else { 0int })
            &&& c < 0x8000 ==> code == c
        }),
{
    let b = s.bytes@;
    let p = s.payload as int;
    let size = s.payload_size as int;
    let ck = spec_checksum(b, p, size);
    let k = spec_slot_code(b, p, size);
    lemma_with_u32(b, p + size, ck);
    let b1 = with_u32(b, p + size, ck as int);
    lemma_with_u32(b1, b1.len() - 4, k);
    assert(size == ANDROID_GAME_SIZE);
}

/// Deriving the trailer of a Windows save keeps its stored slot code, which
/// the PC payload cannot recompute; a SuperOptions save gets slot code
/// `0xffffffff`.  Either way the checksum word after the payload becomes the
/// payload checksum, and the payload itself is untouched.
pub proof fn law_derived_trailer(s: Save)
    requires
        s.has_layout(),
    ensures
        ({
            let b = s.bytes@;
            let d = spec_derived(b, s.payload as int, s.payload_size as int);
            &&& d.len() == b.len()
            &&& s.spec_kind() == SaveKind::WindowsGame ==> le_u32(d, d.len() - 4) == le_u32(b, b.len() - 4)
            &&& s.spec_kind() == SaveKind::AndroidOptions ==> le_u32(d, d.len() - 4) == 0xffff_ffff
            &&& le_u32(d, s.payload + s.payload_size) == spec_checksum(b, s.payload as int, s.payload_size as int)
            &&& forall|i: int| 0 <= i < s.payload + s.payload_size ==> #[trigger] d[i] == b[i]
        }),
{
    let b = s.bytes@;
    let p = s.payload as int;
    let size = s.payload_size as int;
    let ck = spec_checksum(b, p, size);
    let k = spec_slot_code(b, p, size);
    lemma_with_u32(b, p + size, ck);
    let b1 = with_u32(b, p + size, ck as int);
    lemma_with_u32(b1, b1.len() - 4, k);
    let d = with_u32(b1, b1.len() - 4, k as int);
    assert(le_u32(d, p + size) == le_u32(b1, p + size));
}

proof fn lemma_word_sum_zero(b: Seq<u8>, start: int, count: nat)
    requires
        0 <= start,
        start + 4 * count <= b.len(),
        forall|i: int| start <= i < start + 4 * count ==> b[i] == 0,
    ensures
        word_sum(b, start, count) == 0,
    decreases count,
{
    if count > 0 {
        let k = start + 4 * (count - 1);
        assert(b[k] == 0 && b[k + 1] == 0 && b[k + 2] == 0 && b[k + 3] == 0);
        lemma_word_sum_zero(b, start, (count - 1) as nat);
    }
}

/// The checksum starts from the seed `0x005c0999`: a payload of zero bytes
/// has exactly that checksum, and raising one payload word by `delta`
/// (without carrying out of it) raises the checksum by `delta` modulo 2^32.
pub proof fn law_checksum_seed_and_sum(b: Seq<u8>, payload: int, size: int, w: int, delta: int)
    requires
        0 <= payload,
        0 <= size,
        size % 4 == 0,
        payload + size <= b.len(),
        0 <= w < size / 4,
        0 <= le_u32(b, payload + 4 * w) + delta < 0x1_0000_0000,
    ensures
        (forall|i: int| payload <= i < payload + size ==> b[i] == 0) ==> spec_checksum(b, payload, size) == 0x005c_0999,
        ({
            let b2 = with_u32(b, payload + 4 * w, le_u32(b, payload + 4 * w) + delta);
            spec_checksum(b2, payload, size) as int == (spec_checksum(b, payload, size) + delta) % 0x1_0000_0000
        }),
{
    let n = (size / 4) as nat;
    if forall|i: int| payload <= i < payload + size ==> b[i] == 0 {
        lemma_word_sum_zero(b, payload, n);
    }
    let off = payload + 4 * w;
    let v = le_u32(b, off) + delta;
    let b2 = with_u32(b, off, v);
    lemma_with_u32(b, off, v as u32);
    lemma_word_sum_delta(b, b2, payload, n, w, delta);
    let s1 = 0x005c_0999 + word_sum(b, payload, n);
    let s2 = 0x005c_0999 + word_sum(b2, payload, n);
    assert(s2 == s1 + delta);
    assert(s1 >= 0) by { lemma_word_sum_nonneg(b, payload, n); }
    assert(spec_checksum(b, payload, size) as int == s1 % 0x1_0000_0000);
    assert((s1 + delta) % 0x1_0000_0000 == (s1 % 0x1_0000_0000 + delta) % 0x1_0000_0000) by {
        vstd::arithmetic::div_mod::lemma_add_mod_noop(s1, delta, 0x1_0000_0000);
        vstd::arithmetic::div_mod::lemma_add_mod_noop(s1 % 0x1_0000_0000, delta, 0x1_0000_0000);
        vstd::arithmetic::div_mod::lemma_mod_twice(s1, 0x1_0000_0000);
    }
    assert(s2 >= 0) by { lemma_word_sum_nonneg(b2, payload, n); }
}

proof fn lemma_word_sum_nonneg(b: Seq<u8>, start: int, count: nat)
    ensures
        word_sum(b, start, count) >= 0,
    decreases count,
{
    if count > 0 {
        lemma_word_sum_nonneg(b, start, (count - 1) as nat);
    }
}

proof fn lemma_word_sum_delta(b: Seq<u8>, b2: Seq<u8>, start: int, count: nat, w: int, delta: int)
    requires
        0 <= start,
        0 <= w < count,
        start + 4 * count <= b.len(),
        b2.len() == b.len(),
        le_u32(b2, start + 4 * w) == le_u32(b, start + 4 * w) + delta,
        forall|i: int| 0 <= i < b.len() && !(start + 4 * w <= i < start + 4 * w + 4) ==> #[trigger] b2[i] == b[i],
    ensures
        word_sum(b2, start, count) == word_sum(b, start, count) + delta,
    decreases count,
{
    let k = start + 4 * (count - 1);
    if w == count - 1 {
        lemma_word_sum_agree(b, b2, start, (count - 1) as nat);
    } else {
        lemma_word_sum_delta(b, b2, start, (count - 1) as nat, w, delta);
        assert(b2[k] == b[k] && b2[k + 1] == b[k + 1] && b2[k + 2] == b[k + 2] && b2[k + 3] == b[k + 3]);
    }
}

/// Whether a UTF-16 code unit is a surrogate half.
pub open spec fn is_surrogate(u: u16) -> bool {
    0xd800 <= u <= 0xdfff
}

/// Whether a UTF-16 code unit is the leading half of a surrogate pair.
pub open spec fn is_high_surrogate(u: u16) -> bool {
    0xd800 <= u <= 0xdbff
}

/// Whether a UTF-16 code unit is the trailing half of a surrogate pair.
pub open spec fn is_low_surrogate(u: u16) -> bool {
    0xdc00 <= u <= 0xdfff
}

/// UTF-16 decoding with replacement: a leading surrogate followed by a
/// trailing one is the supplementary character they encode, any other
/// surrogate half becomes U+FFFD, and every other unit is the character with
/// its code point.
pub open spec fn utf16_lossy(u: Seq<u16>) -> Seq<char>
    decreases u.len(),
{
    if u.len() == 0 {
        seq![]
    } else if u.len() >= 2 && is_high_surrogate(u[0]) && is_low_surrogate(u[1]) {
        seq![(0x10000 + (u[0] - 0xd800) * 0x400 + (u[1] - 0xdc00)) as char] + utf16_lossy(u.skip(2))
    } else if is_surrogate(u[0]) {
        seq!['\u{fffd}'] + utf16_lossy(u.skip(1))
    } else {
        seq![u[0] as char] + utf16_lossy(u.skip(1))
    }
}

/// Decodes UTF-16 code units with `String::from_utf16_lossy`, which, as its
/// documentation states, decodes the units as UTF-16 and replaces each
/// invalid surrogate half with U+FFFD.
#[verifier::external_body]
fn decode_utf16_lossy(units: &[u16]) -> (res: String)
    ensures
        res@ == utf16_lossy(units@),
{
    String::from_utf16_lossy(units)
}

/// The `count` little-endian UTF-16 code units starting at `start`.
pub open spec fn utf16_units(b: Seq<u8>, start: int, count: nat) -> Seq<u16> {
    Seq::new(count, |k: int| le_u16(b, start + 2 * k) as u16)
}

/// The code units before the first zero unit.
pub open spec fn until_zero(u: Seq<u16>) -> Seq<u16>
    decreases u.len(),
{
    if u.len() == 0 {
        u
    } else if u[0] == 0 {
        Seq::empty()
    } else {
        seq![u[0]] + until_zero(u.skip(1))
    }
}

/// A zero-terminated UTF-16 label stored in a fixed block of `count` units,
/// or nothing when the label is empty.
pub open spec fn metadata_label(b: Seq<u8>, start: int, count: nat) -> Option<Seq<char>> {
    let units = until_zero(utf16_units(b, start, count));
    if units.len() == 0 { None } else { Some(utf16_lossy(units)) }
}

proof fn lemma_until_zero(u: Seq<u16>, i: int)
    requires
        0 <= i <= u.len(),
        forall|j: int| 0 <= j < i ==> u[j] != 0,
        i == u.len() || u[i] == 0,
    ensures
        until_zero(u) == u.take(i),
    decreases u.len(),
{
    if u.len() > 0 && i > 0 {
        lemma_until_zero(u.skip(1), i - 1);
        assert(seq![u[0]] + u.skip(1).take(i - 1) =~= u.take(i));
    } else if u.len() > 0 {
        assert(u.take(i) =~= Seq::<u16>::empty());
    } else {
        assert(u.take(i) =~= u);
    }
}

/// Text read from the four UTF-16 metadata blocks of the envelope header.
#[derive(Clone, Debug, PartialEq, Eq)]
pub struct HeaderMetadata {
    pub application: Option<String>,
    pub slot: Option<String>,
    pub reserved: Option<String>,
    pub timestamp: Option<String>,
}

impl Default for HeaderMetadata {
    fn default() -> (res: HeaderMetadata)
        ensures
            res.application is None,
            res.slot is None,
            res.reserved is None,
            res.timestamp is None,
    {
        HeaderMetadata { application: None, slot: None, reserved: None, timestamp: None }
    }
}

/// Views an optional string as optional text.
pub open spec fn opt_text(o: Option<String>) -> Option<Seq<char>> {
    match o {
        Some(s) => Some(s@),
        None => None,
    }
}

/// Decodes the zero-terminated UTF-16 label of a 2048-byte header block.
fn utf16_prefix(bytes: &[u8], start: usize) -> (res: Option<String>)
    requires
        start + 0x800 <= bytes@.len(),
    ensures
        opt_text(res) == metadata_label(bytes@, start as int, 0x400),
{
    let ghost all = utf16_units(bytes@, start as int, 0x400);
    let mut units: Vec<u16> = Vec::new();
    let mut i: usize = 0;
    while i < 0x400
        invariant
            start + 0x800 <= bytes@.len(),
            i <= 0x400,
            all == utf16_units(bytes@, start as int, 0x400),
            units@ == all.take(i as int),
            forall|j: int| 0 <= j < i ==> all[j] != 0,
        ensures
            i <= 0x400,
            units@ == all.take(i as int),
            forall|j: int| 0 <= j < i ==> all[j] != 0,
            i == 0x400 || all[i as int] == 0,
        decreases 0x400 - i,
    {
        let _n = bytes.len();
        let unit = bytes[start + 2 * i] as u16 + 256 * bytes[start + 2 * i + 1] as u16;
        assert(unit == all[i as int]);
        if unit == 0 {
            break;
        }
        units.push(unit);
        assert(units@ =~= all.take(i + 1));
        i = i + 1;
    }
    proof {
        lemma_until_zero(all, i as int);
    }
    if units.len() == 0 {
        None
    } else {
        Some(decode_utf16_lossy(units.as_slice()))
    }
}

impl Save {
    /// The application, slot, reserved and timestamp labels of the header.
    pub fn header_metadata(&self) -> (res: HeaderMetadata)
        requires
            self.has_layout(),
        ensures
            opt_text(res.application) == metadata_label(self.bytes@, 0x28, 0x400),
            opt_text(res.slot) == metadata_label(self.bytes@, 0x828, 0x400),
            opt_text(res.reserved) == metadata_label(self.bytes@, 0x1028, 0x400),
            opt_text(res.timestamp) == metadata_label(self.bytes@, 0x1828, 0x400),
    {
        let bytes = self.bytes.as_slice();
        HeaderMetadata {
            application: utf16_prefix(bytes, 0x28),
            slot: utf16_prefix(bytes, 0x828),
            reserved: utf16_prefix(bytes, 0x1028),
            timestamp: utf16_prefix(bytes, 0x1828),
        }
    }
}

/// The file name the game uses for a save slot.
pub open spec fn spec_save_file_name(slot: u8) -> Seq<char> {
    "SaveGame"@ + crate::text::decimal(slot as nat) + ".LEGO Star Wars - The Complete Saga_SavedGame"@
}

/// The file name the game uses for a save slot.
pub fn save_file_name(slot: u8) -> (res: String)
    ensures
        res@ == spec_save_file_name(slot),
{
    let mut name = String::from_str("SaveGame");
    crate::text::push_decimal(&mut name, slot as u64);
    name.append(".LEGO Star Wars - The Complete Saga_SavedGame");
    name
}

} // verus!
