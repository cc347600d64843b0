//! Randomly generated 128-bit peer identifiers.
//!
//! An identifier is 16 bytes with the conventional version and variant bit
//! pattern of a version-4 layout: the high nibble of byte 6 is 4 and the two
//! high bits of byte 8 are `10`. Its canonical text form is five
//! hyphen-separated lowercase-hex groups of lengths 8-4-4-4-12; the groups
//! render the bytes little-endian, group by group.

use vstd::prelude::*;

use crate::text::{
    ascii_string, hex_digit, hex_pair, is_hex_digit, lemma_pair_round_trip, pair_ok, pair_val,
    push_pair, read_pair,
};

verus! {

/// The hyphen byte that separates the five groups of the text form.
pub const HYPHEN: u8 = 45;

/// A version-4 identifier: 16 random bytes with fixed version and variant
/// bits.
#[derive(Clone, Copy, PartialEq, Eq, Hash, Debug)]
pub struct UuidV4 {
    bytes: [u8; 16],
}

impl View for UuidV4 {
    type V = Seq<u8>;

    closed spec fn view(&self) -> Seq<u8> {
        self.bytes@
    }
}

/// Every identifier views as exactly 16 bytes.
pub broadcast proof fn lemma_uuid_v4_len(u: UuidV4)
    ensures
        (#[trigger] u@).len() == 16,
{
}

/// A peer identifier; version 4 is the only generation scheme.
#[derive(Clone, Copy, PartialEq, Eq, Hash, Debug)]
pub enum Uuid {
    V4(UuidV4),
}

impl View for Uuid {
    type V = Seq<u8>;

    open spec fn view(&self) -> Seq<u8> {
        match self {
            Uuid::V4(v4) => v4@,
        }
    }
}

/// Every identifier views as exactly 16 bytes.
pub broadcast proof fn lemma_uuid_len(u: Uuid)
    ensures
        (#[trigger] u@).len() == 16,
{
    broadcast use lemma_uuid_v4_len;

}

/// The canonical text of a 16-byte identifier: five hyphen-separated
/// lowercase-hex groups of lengths 8-4-4-4-12, each group rendering its
/// bytes little-endian.
pub open spec fn spec_uuid_text(b: Seq<u8>) -> Seq<u8>
    recommends
        b.len() == 16,
{
    hex_pair(b[3]) + hex_pair(b[2]) + hex_pair(b[1]) + hex_pair(b[0]) + seq![HYPHEN] + hex_pair(
        b[5],
    ) + hex_pair(b[4]) + seq![HYPHEN] + hex_pair(b[7]) + hex_pair(b[6]) + seq![HYPHEN] + hex_pair(
        b[9],
    ) + hex_pair(b[8]) + seq![HYPHEN] + hex_pair(b[15]) + hex_pair(b[14]) + hex_pair(b[13])
        + hex_pair(b[12]) + hex_pair(b[11]) + hex_pair(b[10])
}

/// Whether `s` is a well-formed identifier text: 36 bytes, hyphens exactly
/// at the group boundaries, hexadecimal digits everywhere else.
pub open spec fn spec_uuid_text_ok(s: Seq<u8>) -> bool {
    &&& s.len() == 36
    &&& s[8] == HYPHEN
    &&& s[13] == HYPHEN
    &&& s[18] == HYPHEN
    &&& s[23] == HYPHEN
    &&& pair_ok(s, 0)
    &&& pair_ok(s, 2)
    &&& pair_ok(s, 4)
    &&& pair_ok(s, 6)
    &&& pair_ok(s, 9)
    &&& pair_ok(s, 11)
    &&& pair_ok(s, 14)
    &&& pair_ok(s, 16)
    &&& pair_ok(s, 19)
    &&& pair_ok(s, 21)
    &&& pair_ok(s, 24)
    &&& pair_ok(s, 26)
    &&& pair_ok(s, 28)
    &&& pair_ok(s, 30)
    &&& pair_ok(s, 32)
    &&& pair_ok(s, 34)
}

/// The 16 bytes read back from a well-formed identifier text.
#[verifier::opaque]
pub open spec fn spec_uuid_parse(s: Seq<u8>) -> Option<Seq<u8>> {
    if spec_uuid_text_ok(s) {
        Some(
            seq![
                pair_val(s, 6),
                pair_val(s, 4),
                pair_val(s, 2),
                pair_val(s, 0),
                pair_val(s, 11),
                pair_val(s, 9),
                pair_val(s, 16),
                pair_val(s, 14),
                pair_val(s, 21),
                pair_val(s, 19),
                pair_val(s, 34),
                pair_val(s, 32),
                pair_val(s, 30),
                pair_val(s, 28),
                pair_val(s, 26),
                pair_val(s, 24),
            ],
        )
    } else {
        None
    }
}

/// Relies on rand::random: 16 bytes drawn from the thread-local generator.
/// Nothing is promised of their values.
#[verifier::external_body]
fn random_bytes() -> (r: [u8; 16]) {
    rand::random()
}

impl UuidV4 {
    /// Generates a fresh identifier: 16 random bytes with the version
    /// nibble of byte 6 forced to 4 and the variant bits of byte 8 forced
    /// to `10`.
    pub fn new() -> (r: Self)
        ensures
            r@.len() == 16,
            r@[6] & 0xf0 == 0x40,
            r@[8] & 0xc0 == 0x80,
    {
        let b: [u8; 16] = random_bytes();
        let b6: u8 = (b[6] & 0x0f) | 0x40;
        let b8: u8 = (b[8] & 0x3f) | 0x80;
        proof {
            let x = b@[6];
            let y = b@[8];
            assert(((x & 0x0f) | 0x40) & 0xf0 == 0x40) by (bit_vector);
            assert(((y & 0x3f) | 0x80) & 0xc0 == 0x80) by (bit_vector);
        }
        UuidV4 {
            bytes: [
                b[0],
                b[1],
                b[2],
                b[3],
                b[4],
                b[5],
                b6,
                b[7],
                b8,
                b[9],
                b[10],
                b[11],
                b[12],
                b[13],
                b[14],
                b[15],
            ],
        }
    }

    /// The identifier built from 16 given bytes.
    pub fn from_bytes(b: [u8; 16]) -> (r: Self)
        ensures
            r@ == b@,
    {
        UuidV4 { bytes: b }
    }

    /// The canonical text of this identifier, as ASCII bytes.
    pub fn format(&self) -> (r: Vec<u8>)
        ensures
            r@ == spec_uuid_text(self@),
            r@.len() == 36,
    {
        let mut out: Vec<u8> = Vec::new();
        push_pair(&mut out, self.bytes[3]);
        push_pair(&mut out, self.bytes[2]);
        push_pair(&mut out, self.bytes[1]);
        push_pair(&mut out, self.bytes[0]);
        out.push(HYPHEN);
        push_pair(&mut out, self.bytes[5]);
        push_pair(&mut out, self.bytes[4]);
        out.push(HYPHEN);
        push_pair(&mut out, self.bytes[7]);
        push_pair(&mut out, self.bytes[6]);
        out.push(HYPHEN);
        push_pair(&mut out, self.bytes[9]);
        push_pair(&mut out, self.bytes[8]);
        out.push(HYPHEN);
        push_pair(&mut out, self.bytes[15]);
        push_pair(&mut out, self.bytes[14]);
        push_pair(&mut out, self.bytes[13]);
        push_pair(&mut out, self.bytes[12]);
        push_pair(&mut out, self.bytes[11]);
        push_pair(&mut out, self.bytes[10]);
        proof {
            assert(out@ =~= spec_uuid_text(self@));
        }
        out
    }

    /// Whether two identifiers hold the same bytes.
    pub fn same(&self, other: &UuidV4) -> (r: bool)
        ensures
            r <==> self@ == other@,
    {
        let av: &[u8] = self.bytes.as_slice();
        let bv: &[u8] = other.bytes.as_slice();
        let mut i: usize = 0;
        while i < 16
            invariant
                av@ == self.bytes@,
                bv@ == other.bytes@,
                av@.len() == 16,
                bv@.len() == 16,
                0 <= i <= 16,
                forall|k: int| 0 <= k < i ==> av@[k] == bv@[k],
            decreases 16 - i,
        {
            if av[i] != bv[i] {
                return false;
            }
            i = i + 1;
        }
        proof {
            assert(self@ =~= other@);
        }
        true
    }

    /// Parses the canonical text form. Fails unless the input is exactly
    /// five hyphen-separated groups of hexadecimal digits of lengths
    /// 8-4-4-4-12; digits of either case are read.
    pub fn parse(s: &[u8]) -> (r: Result<Self, Error>)
        ensures
            r is Ok <==> spec_uuid_parse(s@) is Some,
            r is Ok ==> r->Ok_0@ == spec_uuid_parse(s@)->Some_0,
            r is Err ==> r->Err_0.kind == ErrorKind::ParseError,
    {
        proof {
            reveal(spec_uuid_parse);
        }
        if s.len() != 36 {
            return Err(Error::new(ErrorKind::ParseError, "expected 5 hyphen-separated groups"));
        }
        if !(s[8] == HYPHEN && s[13] == HYPHEN && s[18] == HYPHEN && s[23] == HYPHEN) {
            return Err(Error::new(ErrorKind::ParseError, "expected 5 hyphen-separated groups"));
        }
        let pairs: [Option<u8>; 16] = [
            read_pair(s, 6),
            read_pair(s, 4),
            read_pair(s, 2),
            read_pair(s, 0),
            read_pair(s, 11),
            read_pair(s, 9),
            read_pair(s, 16),
            read_pair(s, 14),
            read_pair(s, 21),
            read_pair(s, 19),
            read_pair(s, 34),
            read_pair(s, 32),
            read_pair(s, 30),
            read_pair(s, 28),
            read_pair(s, 26),
            read_pair(s, 24),
        ];
        match (
            pairs[0],
            pairs[1],
            pairs[2],
            pairs[3],
            pairs[4],
            pairs[5],
            pairs[6],
            pairs[7],
            pairs[8],
            pairs[9],
            pairs[10],
            pairs[11],
            pairs[12],
            pairs[13],
            pairs[14],
            pairs[15],
        ) {
            (
                Some(v0),
                Some(v1),
                Some(v2),
                Some(v3),
                Some(v4),
                Some(v5),
                Some(v6),
                Some(v7),
                Some(v8),
                Some(v9),
                Some(v10),
                Some(v11),
                Some(v12),
                Some(v13),
                Some(v14),
                Some(v15),
            ) => {
                let r = UuidV4 {
                    bytes: [
                        v0,
                        v1,
                        v2,
                        v3,
                        v4,
                        v5,
                        v6,
                        v7,
                        v8,
                        v9,
                        v10,
                        v11,
                        v12,
                        v13,
                        v14,
                        v15,
                    ],
                };
                proof {
                    assert(r@ =~= spec_uuid_parse(s@)->Some_0);
                }
                Ok(r)
            },
            _ => Err(Error::new(ErrorKind::ParseError, "found invalid hexadecimal")),
        }
    }
}

impl Default for UuidV4 {
    /// The all-zero identifier.
    fn default() -> (r: Self)
        ensures
            r@ == Seq::new(16, |i: int| 0u8),
    {
        let r = UuidV4 { bytes: [0u8; 16] };
        proof {
            assert(r@ =~= Seq::new(16, |i: int| 0u8));
        }
        r
    }
}

impl Uuid {
    /// Generates a fresh version-4 identifier.
    pub fn new() -> (r: Self)
        ensures
            r@.len() == 16,
            r@[6] & 0xf0 == 0x40,
            r@[8] & 0xc0 == 0x80,
    {
        Uuid::V4(UuidV4::new())
    }

    /// The identifier wrapping the given version-4 value.
    pub fn from_v4(v4: UuidV4) -> (r: Self)
        ensures
            r@ == v4@,
    {
        Uuid::V4(v4)
    }

    /// The canonical text of this identifier, as ASCII bytes.
    pub fn format(&self) -> (r: Vec<u8>)
        ensures
            r@ == spec_uuid_text(self@),
            r@.len() == 36,
    {
        match self {
            Uuid::V4(v4) => v4.format(),
        }
    }

    /// The canonical text of this identifier, as a string.
    pub fn to_text(&self) -> (r: String)
        ensures
            r@.len() == 36,
            forall|i: int|
                0 <= i < 36 ==> r@[i] == spec_uuid_text(self@)[i] as char,
    {
        let bytes = self.format();
        proof {
            lemma_uuid_text_ascii(self@);
        }
        ascii_string(&bytes)
    }

    /// Parses the canonical text form from ASCII bytes.
    pub fn parse(s: &[u8]) -> (r: Result<Self, Error>)
        ensures
            r is Ok <==> spec_uuid_parse(s@) is Some,
            r is Ok ==> r->Ok_0@ == spec_uuid_parse(s@)->Some_0,
            r is Err ==> r->Err_0.kind == ErrorKind::ParseError,
    {
        match UuidV4::parse(s) {
            Ok(v4) => Ok(Uuid::V4(v4)),
            Err(e) => Err(e),
        }
    }

    /// Whether two identifiers hold the same bytes.
    pub fn same(&self, other: &Uuid) -> (r: bool)
        ensures
            r <==> self@ == other@,
    {
        match (self, other) {
            (Uuid::V4(a), Uuid::V4(b)) => a.same(b),
        }
    }
}

impl Default for Uuid {
    /// The all-zero version-4 identifier.
    fn default() -> (r: Self)
        ensures
            r@ == Seq::new(16, |i: int| 0u8),
    {
        Uuid::V4(UuidV4::default())
    }
}

/// The text of an identifier holds only ASCII bytes.
pub proof fn lemma_uuid_text_ascii(b: Seq<u8>)
    requires
        b.len() == 16,
    ensures
        forall|i: int| 0 <= i < 36 ==> spec_uuid_text(b)[i] < 128,
        spec_uuid_text(b).len() == 36,
{
}

/// The characters of the first text group: bytes 3 to 0, little-endian.
proof fn lemma_text_g1(b: Seq<u8>)
    requires
        b.len() == 16,
    ensures
        spec_uuid_text(b).len() == 36,
        spec_uuid_text(b)[0] == hex_digit(b[3] / 16),
        spec_uuid_text(b)[1] == hex_digit(b[3] % 16),
        spec_uuid_text(b)[2] == hex_digit(b[2] / 16),
        spec_uuid_text(b)[3] == hex_digit(b[2] % 16),
        spec_uuid_text(b)[4] == hex_digit(b[1] / 16),
        spec_uuid_text(b)[5] == hex_digit(b[1] % 16),
        spec_uuid_text(b)[6] == hex_digit(b[0] / 16),
        spec_uuid_text(b)[7] == hex_digit(b[0] % 16),
{
}

/// The characters of the second text group: bytes 5 and 4.
proof fn lemma_text_g2(b: Seq<u8>)
    requires
        b.len() == 16,
    ensures
        spec_uuid_text(b)[8] == HYPHEN,
        spec_uuid_text(b)[9] == hex_digit(b[5] / 16),
        spec_uuid_text(b)[10] == hex_digit(b[5] % 16),
        spec_uuid_text(b)[11] == hex_digit(b[4] / 16),
        spec_uuid_text(b)[12] == hex_digit(b[4] % 16),
        spec_uuid_text(b)[13] == HYPHEN,
{
}

/// The characters of the third text group: bytes 7 and 6.
proof fn lemma_text_g3(b: Seq<u8>)
    requires
        b.len() == 16,
    ensures
        spec_uuid_text(b)[14] == hex_digit(b[7] / 16),
        spec_uuid_text(b)[15] == hex_digit(b[7] % 16),
        spec_uuid_text(b)[16] == hex_digit(b[6] / 16),
        spec_uuid_text(b)[17] == hex_digit(b[6] % 16),
        spec_uuid_text(b)[18] == HYPHEN,
{
}

/// The characters of the fourth text group: bytes 9 and 8.
proof fn lemma_text_g4(b: Seq<u8>)
    requires
        b.len() == 16,
    ensures
        spec_uuid_text(b)[19] == hex_digit(b[9] / 16),
        spec_uuid_text(b)[20] == hex_digit(b[9] % 16),
        spec_uuid_text(b)[21] == hex_digit(b[8] / 16),
        spec_uuid_text(b)[22] == hex_digit(b[8] % 16),
        spec_uuid_text(b)[23] == HYPHEN,
{
}

/// The characters of the fifth text group: bytes 15 to 10, little-endian.
proof fn lemma_text_g5(b: Seq<u8>)
    requires
        b.len() == 16,
    ensures
        spec_uuid_text(b)[24] == hex_digit(b[15] / 16),
        spec_uuid_text(b)[25] == hex_digit(b[15] % 16),
        spec_uuid_text(b)[26] == hex_digit(b[14] / 16),
        spec_uuid_text(b)[27] == hex_digit(b[14] % 16),
        spec_uuid_text(b)[28] == hex_digit(b[13] / 16),
        spec_uuid_text(b)[29] == hex_digit(b[13] % 16),
        spec_uuid_text(b)[30] == hex_digit(b[12] / 16),
        spec_uuid_text(b)[31] == hex_digit(b[12] % 16),
        spec_uuid_text(b)[32] == hex_digit(b[11] / 16),
        spec_uuid_text(b)[33] == hex_digit(b[11] % 16),
        spec_uuid_text(b)[34] == hex_digit(b[10] / 16),
        spec_uuid_text(b)[35] == hex_digit(b[10] % 16),
{
}

/// Round trip: parsing the canonical text of any 16 identifier bytes gives
/// those bytes back, and the text has hyphens exactly at the four group
/// boundaries, so it always shows exactly five hyphen-delimited groups.
#[verifier::rlimit(100)]
pub proof fn lemma_uuid_round_trip(b: Seq<u8>)
    requires
        b.len() == 16,
    ensures
        spec_uuid_parse(spec_uuid_text(b)) == Some(b),
        spec_uuid_text(b).len() == 36,
        forall|i: int|
            0 <= i < 36 ==> (spec_uuid_text(b)[i] == HYPHEN <==> (i == 8 || i == 13 || i == 18
                || i == 23)),
{
    reveal(spec_uuid_parse);
    let t = spec_uuid_text(b);
    lemma_text_g1(b);
    lemma_text_g2(b);
    lemma_text_g3(b);
    lemma_text_g4(b);
    lemma_text_g5(b);
    lemma_pair_round_trip(t, 0, b[3]);
    lemma_pair_round_trip(t, 2, b[2]);
    lemma_pair_round_trip(t, 4, b[1]);
    lemma_pair_round_trip(t, 6, b[0]);
    lemma_pair_round_trip(t, 9, b[5]);
    lemma_pair_round_trip(t, 11, b[4]);
    lemma_pair_round_trip(t, 14, b[7]);
    lemma_pair_round_trip(t, 16, b[6]);
    lemma_pair_round_trip(t, 19, b[9]);
    lemma_pair_round_trip(t, 21, b[8]);
    lemma_pair_round_trip(t, 24, b[15]);
    lemma_pair_round_trip(t, 26, b[14]);
    lemma_pair_round_trip(t, 28, b[13]);
    lemma_pair_round_trip(t, 30, b[12]);
    lemma_pair_round_trip(t, 32, b[11]);
    lemma_pair_round_trip(t, 34, b[10]);
    assert(spec_uuid_parse(t)->Some_0 =~= b);
    assert forall|i: int| 0 <= i < 36 && !(i == 8 || i == 13 || i == 18 || i == 23) implies t[i]
        != HYPHEN by {
        assert(is_hex_digit(t[i]));
    }
}

/// An identifier error.
#[derive(Debug)]
pub struct Error {
    pub kind: ErrorKind,
    pub msg: String,
}

impl Error {
    /// An error of the given kind carrying a description.
    pub fn new(kind: ErrorKind, msg: &str) -> (r: Self)
        ensures
            r.kind == kind,
            r.msg@ == msg@,
    {
        Error { kind, msg: msg.to_owned() }
    }
}

/// The kinds of identifier error.
#[derive(Clone, Copy, PartialEq, Eq, Debug)]
pub enum ErrorKind {
    ParseError,
}

impl Default for ErrorKind {
    fn default() -> (r: Self)
        ensures
            r == ErrorKind::ParseError,
    {
        ErrorKind::ParseError
    }
}

} // verus!
