//! Base65536: two bytes per character.
//!
//! Every pair of bytes `(b1, b2)` becomes the character whose code point is
//! `BLOCK_START[b2] + b1`; a lone trailing byte `b1` becomes `PAD_BLOCK + b1`.
use vstd::prelude::*;

verus! {

broadcast use vstd::string::group_string_axioms;

/// First code point of the 256-character block that stands for each value of
/// the second byte of a pair.
pub const BLOCK_START: [u32; 256] = [
    13312, 13568, 13824, 14080, 14336, 14592, 14848, 15104, 15360, 15616, 15872, 16128, 16384,
    16640, 16896, 17152, 17408, 17664, 17920, 18176, 18432, 18688, 18944, 19200, 19456, 19968,
    20224, 20480, 20736, 20992, 21248, 21504, 21760, 22016, 22272, 22528, 22784, 23040, 23296,
    23552, 23808, 24064, 24320, 24576, 24832, 25088, 25344, 25600, 25856, 26112, 26368, 26624,
    26880, 27136, 27392, 27648, 27904, 28160, 28416, 28672, 28928, 29184, 29440, 29696, 29952,
    30208, 30464, 30720, 30976, 31232, 31488, 31744, 32000, 32256, 32512, 32768, 33024, 33280,
    33536, 33792, 34048, 34304, 34560, 34816, 35072, 35328, 35584, 35840, 36096, 36352, 36608,
    36864, 37120, 37376, 37632, 37888, 38144, 38400, 38656, 38912, 39168, 39424, 39680, 39936,
    40192, 40448, 41216, 41472, 41728, 42240, 67072, 73728, 73984, 74240, 77824, 78080, 78336,
    78592, 82944, 83200, 92160, 92416, 131072, 131328, 131584, 131840, 132096, 132352, 132608,
    132864, 133120, 133376, 133632, 133888, 134144, 134400, 134656, 134912, 135168, 135424, 135680,
    135936, 136192, 136448, 136704, 136960, 137216, 137472, 137728, 137984, 138240, 138496, 138752,
    139008, 139264, 139520, 139776, 140032, 140288, 140544, 140800, 141056, 141312, 141568, 141824,
    142080, 142336, 142592, 142848, 143104, 143360, 143616, 143872, 144128, 144384, 144640, 144896,
    145152, 145408, 145664, 145920, 146176, 146432, 146688, 146944, 147200, 147456, 147712, 147968,
    148224, 148480, 148736, 148992, 149248, 149504, 149760, 150016, 150272, 150528, 150784, 151040,
    151296, 151552, 151808, 152064, 152320, 152576, 152832, 153088, 153344, 153600, 153856, 154112,
    154368, 154624, 154880, 155136, 155392, 155648, 155904, 156160, 156416, 156672, 156928, 157184,
    157440, 157696, 157952, 158208, 158464, 158720, 158976, 159232, 159488, 159744, 160000, 160256,
    160512, 160768, 161024, 161280, 161536, 161792, 162048, 162304, 162560, 162816, 163072, 163328,
    163584, 163840, 164096, 164352, 164608, 164864, 165120,
];

/// First code point of the block used for a lone trailing byte.
pub const PAD_BLOCK: u32 = 5376;

// ---------------------------------------------------------------------------
// Specification
// ---------------------------------------------------------------------------

/// The block of second-byte value `j`.
pub open spec fn block(j: int) -> int {
    BLOCK_START@[j] as int
}

/// Code point of the `k`-th character of the encoding of `bytes`.
pub open spec fn encoded_code(bytes: Seq<u8>, k: int) -> int {
    let b1 = bytes[2 * k] as int;
    if 2 * k + 1 < bytes.len() {
        block(bytes[2 * k + 1] as int) + b1
    } else {
        PAD_BLOCK + b1
    }
}

/// `chars` is the base65536 encoding of `bytes`: one character per pair of
/// bytes, the last one for a lone trailing byte when the length is odd.
pub open spec fn is_encoding_of(chars: Seq<char>, bytes: Seq<u8>) -> bool {
    &&& chars.len() == (bytes.len() + 1) / 2
    &&& forall|k: int| 0 <= k < chars.len() ==> #[trigger] (chars[k] as u32) == encoded_code(bytes, k)
}

/// Low byte of a code point.
pub open spec fn low_byte(code: int) -> int {
    code % 256
}

/// Code point with its low byte cleared: the block it lies in.
pub open spec fn block_of(code: int) -> int {
    code - code % 256
}

/// The table holds `hi` as the start of some block.
pub open spec fn is_block(hi: int) -> bool {
    exists|j: int| 0 <= j < 256 && block(j) == hi
}

/// Position of `hi` in the table (meaningful when `is_block(hi)`).
pub open spec fn block_index(hi: int) -> int {
    choose|j: int| 0 <= j < 256 && block(j) == hi
}

/// A character that decoding accepts: its block is the padding block or a
/// block of the table.
pub open spec fn decodable_char(c: char) -> bool {
    let hi = block_of(c as u32 as int);
    hi == PAD_BLOCK || is_block(hi)
}

/// Every character of `chars` is one that decoding accepts.
pub open spec fn decodable(chars: Seq<char>) -> bool {
    forall|k: int| 0 <= k < chars.len() ==> decodable_char(#[trigger] chars[k])
}

/// Bytes that one character decodes to.
pub open spec fn char_bytes(c: char) -> Seq<u8> {
    let code = c as u32 as int;
    let hi = block_of(code);
    if hi == PAD_BLOCK {
        seq![low_byte(code) as u8]
    } else {
        seq![low_byte(code) as u8, block_index(hi) as u8]
    }
}

/// Bytes that a sequence of characters decodes to.
pub open spec fn decode_chars(chars: Seq<char>) -> Seq<u8>
    decreases chars.len(),
{
    if chars.len() == 0 {
        Seq::empty()
    } else {
        decode_chars(chars.drop_last()) + char_bytes(chars.last())
    }
}

/// Every character but the last comes from a full pair of bytes.
pub open spec fn is_canonical(chars: Seq<char>) -> bool {
    forall|k: int| 0 <= k < chars.len() - 1 ==> block_of(#[trigger] chars[k] as u32 as int) != PAD_BLOCK
}

// ---------------------------------------------------------------------------
// Facts about the table
// ---------------------------------------------------------------------------

/// What encoding and decoding need of entry `k` of the table.
spec fn entry_ok(k: int) -> bool {
    let v = BLOCK_START@[k] as int;
    &&& v % 256 == 0
    &&& v != PAD_BLOCK
    &&& (v + 255 < 0xD800 || (0xE000 <= v && v + 255 <= 0x10FFFF))
    &&& (k < 255 ==> v < BLOCK_START@[k + 1] as int)
}

spec fn entries_ok_from(k: int) -> bool
    decreases 256 - k,
{
    if k >= 256 {
        true
    } else {
        entry_ok(k) && entries_ok_from(k + 1)
    }
}

proof fn lemma_entries_ok_from(k: int, j: int)
    requires
        0 <= k <= j < 256,
        entries_ok_from(k),
    ensures
        entry_ok(j),
    decreases j - k,
{
    if k < j {
        lemma_entries_ok_from(k + 1, j);
    }
}

proof fn lemma_increasing(i: int, j: int)
    requires
        0 <= i < j < 256,
        forall|k: int| 0 <= k < 256 ==> entry_ok(k),
    ensures
        block(i) < block(j),
    decreases j - i,
{
    assert(entry_ok(i));
    if i + 1 < j {
        lemma_increasing(i + 1, j);
    }
}

/// The table is strictly increasing, its entries are multiples of 256 other
/// than the padding block, and a block plus a low byte is always a Unicode
/// scalar value.
#[verifier::rlimit(100)]
proof fn lemma_table()
    ensures
        forall|k: int| 0 <= k < 256 ==> entry_ok(k),
        forall|i: int, j: int| 0 <= i < j < 256 ==> block(i) < block(j),
{
    assert(entries_ok_from(192)) by {
        reveal_with_fuel(entries_ok_from, 65);
    }
    assert(entries_ok_from(128)) by {
        reveal_with_fuel(entries_ok_from, 65);
    }
    assert(entries_ok_from(64)) by {
        reveal_with_fuel(entries_ok_from, 65);
    }
    assert(entries_ok_from(0)) by {
        reveal_with_fuel(entries_ok_from, 65);
    }
    assert forall|k: int| 0 <= k < 256 implies entry_ok(k) by {
        lemma_entries_ok_from(0, k);
    }
    assert forall|i: int, j: int| 0 <= i < j < 256 implies block(i) < block(j) by {
        lemma_increasing(i, j);
    }
}

proof fn lemma_block_index(j: int)
    requires
        0 <= j < 256,
    ensures
        is_block(block(j)),
        block_index(block(j)) == j,
{
    lemma_table();
    assert(block(j) == block(j));
    let c = block_index(block(j));
    if c < j {
        assert(block(c) < block(j));
    } else if c > j {
        assert(block(j) < block(c));
    }
}


// ---------------------------------------------------------------------------
// Laws
// ---------------------------------------------------------------------------

proof fn lemma_split_code(v: int, b: int)
    requires
        v % 256 == 0,
        0 <= b < 256,
    ensures
        (v + b) % 256 == b,
        block_of(v + b) == v,
        low_byte(v + b) == b,
{
    assert((v + b) % 256 == b) by (nonlinear_arith)
        requires
            v % 256 == 0,
            0 <= b < 256,
    ;
}

/// The characters of the encoding of a byte sequence each decode to the pair
/// (or lone trailing byte) they were made from.
proof fn lemma_encoded_char_bytes(chars: Seq<char>, bytes: Seq<u8>, k: int)
    requires
        is_encoding_of(chars, bytes),
        0 <= k < chars.len(),
    ensures
        decodable_char(chars[k]),
        2 * k + 1 < bytes.len() ==> char_bytes(chars[k]) == seq![bytes[2 * k], bytes[2 * k + 1]],
        2 * k + 1 >= bytes.len() ==> char_bytes(chars[k]) == seq![bytes[2 * k]],
{
    lemma_table();
    let code = chars[k] as u32 as int;
    assert(code == encoded_code(bytes, k));
    if 2 * k + 1 < bytes.len() {
        let j = bytes[2 * k + 1] as int;
        assert(entry_ok(j));
        lemma_split_code(block(j), bytes[2 * k] as int);
        lemma_block_index(j);
        assert(char_bytes(chars[k]) =~= seq![bytes[2 * k], bytes[2 * k + 1]]);
    } else {
        lemma_split_code(PAD_BLOCK as int, bytes[2 * k] as int);
        assert(char_bytes(chars[k]) =~= seq![bytes[2 * k]]);
    }
}

/// Decoding the encoding of any byte sequence gives that byte sequence back,
/// and the encoding is always accepted by decoding.
pub proof fn decode_inverts_encode(chars: Seq<char>, bytes: Seq<u8>)
    requires
        is_encoding_of(chars, bytes),
    ensures
        decodable(chars),
        decode_chars(chars) == bytes,
    decreases chars.len(),
{
    assert forall|k: int| 0 <= k < chars.len() implies decodable_char(#[trigger] chars[k]) by {
        lemma_encoded_char_bytes(chars, bytes, k);
    }
    if chars.len() == 0 {
        assert(bytes =~= Seq::<u8>::empty());
    } else {
        let m = chars.len() - 1;
        lemma_encoding_prefix(chars, bytes);
        decode_inverts_encode(chars.drop_last(), bytes.take(2 * m));
        lemma_encoded_char_bytes(chars, bytes, m);
        lemma_last_pair(chars, bytes);
    }
}

/// Dropping the last character of an encoding leaves the encoding of the
/// bytes before the last pair.
proof fn lemma_encoding_prefix(chars: Seq<char>, bytes: Seq<u8>)
    requires
        is_encoding_of(chars, bytes),
        chars.len() > 0,
    ensures
        is_encoding_of(chars.drop_last(), bytes.take(2 * (chars.len() - 1))),
{
    let m = chars.len() - 1;
    let front = bytes.take(2 * m);
    let rest = chars.drop_last();
    assert forall|k: int| 0 <= k < rest.len() implies #[trigger] (rest[k] as u32) == encoded_code(front, k) by {
        assert(rest[k] == chars[k]);
        assert((chars[k] as u32) == encoded_code(bytes, k));
    }
}

proof fn lemma_last_pair(chars: Seq<char>, bytes: Seq<u8>)
    requires
        is_encoding_of(chars, bytes),
        chars.len() > 0,
        decode_chars(chars.drop_last()) == bytes.take(2 * (chars.len() - 1)),
        2 * (chars.len() - 1) + 1 < bytes.len() ==> char_bytes(chars[chars.len() - 1]) == seq![bytes[2 * (chars.len() - 1)], bytes[2 * (chars.len() - 1) + 1]],
        2 * (chars.len() - 1) + 1 >= bytes.len() ==> char_bytes(chars[chars.len() - 1]) == seq![bytes[2 * (chars.len() - 1)]],
    ensures
        decode_chars(chars) == bytes,
{
    let m = chars.len() - 1;
    let front = bytes.take(2 * m);
    assert(decode_chars(chars) == front + char_bytes(chars[m]));
    if 2 * m + 1 < bytes.len() {
        assert(bytes =~= front + seq![bytes[2 * m], bytes[2 * m + 1]]);
    } else {
        assert(bytes =~= front + seq![bytes[2 * m]]);
    }
}

/// Text in which no character but the last is a padding character decodes to
/// bytes whose encoding is that very text.
pub proof fn encode_inverts_decode(chars: Seq<char>)
    requires
        decodable(chars),
        is_canonical(chars),
    ensures
        is_encoding_of(chars, decode_chars(chars)),
    decreases chars.len(),
{
    if chars.len() > 0 {
        let m = chars.len() - 1;
        let rest = chars.drop_last();
        assert forall|k: int| 0 <= k < rest.len() implies decodable_char(#[trigger] rest[k]) by {
            assert(rest[k] == chars[k]);
        }
        assert forall|k: int| 0 <= k < rest.len() - 1 implies block_of(#[trigger] rest[k] as u32 as int) != PAD_BLOCK by {
            assert(rest[k] == chars[k]);
        }
        encode_inverts_decode(rest);
        lemma_full_pairs(rest);
        let front = decode_chars(rest);
        let bytes = decode_chars(chars);
        let c = chars[m];
        let code = c as u32 as int;
        let tail = char_bytes(c);
        assert(bytes == front + tail);
        assert(front.len() == 2 * m);
        assert(decodable_char(chars[m]));
        assert(code == block_of(code) + low_byte(code));
        assert forall|k: int| 0 <= k < chars.len() implies #[trigger] (chars[k] as u32) == encoded_code(bytes, k) by {
            if k < m {
                assert(rest[k] == chars[k]);
                assert((rest[k] as u32) == encoded_code(front, k));
                assert(bytes[2 * k] == front[2 * k]);
                assert(bytes[2 * k + 1] == front[2 * k + 1]);
            } else {
                assert(k == m);
                if block_of(code) != PAD_BLOCK {
                    let j = block_index(block_of(code));
                    assert(0 <= j < 256 && block(j) == block_of(code));
                    assert(bytes[2 * k + 1] == j as u8);
                }
            }
        }
    }
}

/// A decodable text whose characters are none of them padding characters
/// decodes to exactly two bytes per character.
proof fn lemma_full_pairs(chars: Seq<char>)
    requires
        decodable(chars),
        forall|k: int| 0 <= k < chars.len() ==> block_of(#[trigger] chars[k] as u32 as int) != PAD_BLOCK,
    ensures
        decode_chars(chars).len() == 2 * chars.len(),
    decreases chars.len(),
{
    if chars.len() > 0 {
        let rest = chars.drop_last();
        assert forall|k: int| 0 <= k < rest.len() implies decodable_char(#[trigger] rest[k]) by {
            assert(rest[k] == chars[k]);
        }
        assert forall|k: int| 0 <= k < rest.len() implies block_of(#[trigger] rest[k] as u32 as int) != PAD_BLOCK by {
            assert(rest[k] == chars[k]);
        }
        lemma_full_pairs(rest);
        assert(block_of(chars[chars.len() - 1] as u32 as int) != PAD_BLOCK);
    }
}

// ---------------------------------------------------------------------------
// Trusted items (std)
// ---------------------------------------------------------------------------

/// `char::from_u32`: `Some` of the character with that code point exactly
/// when the code point is a Unicode scalar value (not a surrogate and at most
/// `0x10FFFF`), `None` otherwise.
#[verifier::external_body]
fn char_from_code(code: u32) -> (r: Option<char>)
    ensures
        r is Some <==> (code <= 0xD7FF || (0xE000 <= code && code <= 0x10FFFF)),
        r matches Some(c) ==> c as u32 == code,
{
    char::from_u32(code)
}

/// `String::push`: appends one character.
#[verifier::external_body]
fn push_char(s: &mut String, c: char)
    ensures
        final(s)@ == old(s)@.push(c),
{
    s.push(c)
}

// ---------------------------------------------------------------------------
// Executable code
// ---------------------------------------------------------------------------

/// Encodes `bytes` as base65536 text.
pub fn encode(bytes: &[u8]) -> (s: String)
    ensures
        is_encoding_of(s@, bytes@),
{
    proof {
        lemma_table();
    }
    let n = bytes.len();
    let mut s = String::new();
    let mut i: usize = 0;
    while i < n
        invariant
            n == bytes@.len(),
            i <= n,
            i < n ==> i % 2 == 0,
            s@.len() == (i + 1) / 2,
            forall|k: int| 0 <= k < s@.len() ==> #[trigger] (s@[k] as u32) == encoded_code(bytes@, k),
            forall|k: int| 0 <= k < 256 ==> entry_ok(k),
        decreases n - i,
    {
        let b1 = bytes[i] as u32;
        let b2 = if i + 1 < n {
            assert(entry_ok(bytes@[i + 1] as int));
            BLOCK_START[bytes[i + 1] as usize]
        } else {
            PAD_BLOCK
        };
        let c = char_from_code(b2 + b1).unwrap();
        let ghost prev = s@;
        push_char(&mut s, c);
        assert forall|k: int| 0 <= k < s@.len() implies #[trigger] (s@[k] as u32) == encoded_code(bytes@, k) by {
            if k < prev.len() {
                assert(s@[k] == prev[k]);
            } else {
                assert(k == i / 2);
                assert(2 * k == i);
                assert(s@[k] == c);
                assert(c as u32 == b2 + b1);
                assert(encoded_code(bytes@, k) == b2 + b1);
            }
        }
        if n - i <= 2 {
            i = n;
        } else {
            i = i + 2;
        }
    }
    s
}

/// Index of `hi` in the table, if it is there.
fn find_block(hi: u32) -> (r: Option<usize>)
    ensures
        r is Some <==> is_block(hi as int),
        r matches Some(j) ==> j < 256 && j == block_index(hi as int),
{
    proof {
        lemma_table();
    }
    let mut j: usize = 0;
    while j < 256
        invariant
            j <= 256,
            forall|i: int| 0 <= i < j ==> block(i) != hi as int,
        decreases 256 - j,
    {
        if BLOCK_START[j] == hi {
            proof {
                lemma_block_index(j as int);
            }
            return Some(j);
        }
        j = j + 1;
    }
    None
}

/// Whether every character of `s` is one that decoding accepts.
pub fn is_decodable(s: &str) -> (r: bool)
    ensures
        r == decodable(s@),
{
    for ch in it: s.chars()
        invariant
            it.seq() == s@,
            forall|k: int| 0 <= k < it.index() ==> decodable_char(#[trigger] s@[k]),
    {
        let ghost k = it.index();
        assert(ch == s@[k]);
        let code_point = ch as u32;
        let b1 = code_point & 255;
        assert(b1 == code_point % 256) by (bit_vector)
            requires
                b1 == code_point & 255,
        ;
        if code_point - b1 != PAD_BLOCK && find_block(code_point - b1).is_none() {
            assert(!decodable_char(s@[k]));
            return false;
        }
    }
    true
}

/// Decodes base65536 text.
pub fn decode(s: String) -> (bytes: Vec<u8>)
    requires
        decodable(s@),
    ensures
        bytes@ == decode_chars(s@),
{
    let mut bytes: Vec<u8> = Vec::new();
    for ch in it: s.as_str().chars()
        invariant
            it.seq() == s@,
            decodable(s@),
            bytes@ == decode_chars(s@.take(it.index())),
    {
        let ghost k = it.index();
        assert(ch == s@[k]);
        assert(decodable_char(s@[k]));
        let code_point = ch as u32;
        let b1 = code_point & 255;
        assert(b1 == code_point % 256) by (bit_vector)
            requires
                b1 == code_point & 255,
        ;
        bytes.push(b1 as u8);
        if code_point - b1 != PAD_BLOCK {
            let b2 = find_block(code_point - b1).unwrap();
            bytes.push(b2 as u8);
        }
        assert(s@.take(k + 1).drop_last() =~= s@.take(k));
        assert(bytes@ =~= decode_chars(s@.take(k + 1)));
    }
    assert(s@.take(s@.len() as int) =~= s@);
    bytes
}

} // verus!
