//! UUIDs as the service handles them: parsing caller-supplied ids, minting
//! fresh version-4 ids, and rendering the canonical lowercase hyphenated form
//! that object keys and responses carry.

use vstd::prelude::*;

verus! {

/// A UUID as its two 64-bit halves, most significant half first (the split
/// `uuid::Uuid::as_u64_pair` makes).
#[derive(Clone, Copy, Debug, PartialEq, Eq, Hash, Structural)]
pub struct Uuid {
    pub hi: u64,
    pub lo: u64,
}

/// The version field: the upper nibble of byte 6 of the big-endian encoding.
pub open spec fn spec_version(u: Uuid) -> u64 {
    (u.hi >> 12) & 0xf
}

/// The variant field: the upper two bits of byte 8 of the big-endian encoding.
pub open spec fn spec_variant(u: Uuid) -> u64 {
    u.lo >> 62
}

/// A random (version 4) UUID of the RFC variant: the only form of id the
/// service accepts or mints.
pub open spec fn is_v4(u: Uuid) -> bool {
    spec_version(u) == 4 && spec_variant(u) == 2
}

/// The lowercase hex digit for a nibble value.
pub open spec fn hex_digit(n: u64) -> char {
    if n < 10 {
        (('0' as u64) + n) as char
    } else {
        (('a' as u64) + (n - 10)) as char
    }
}

/// The `i`-th of the 32 nibbles of the value, most significant first.
pub open spec fn nibble(hi: u64, lo: u64, i: int) -> u64 {
    if i < 16 {
        (hi >> (((15 - i) * 4) as u64)) & 0xf
    } else {
        (lo >> (((31 - i) * 4) as u64)) & 0xf
    }
}

/// Which nibble the character at string position `i` renders, skipping the
/// four hyphens of the 8-4-4-4-12 layout.
pub open spec fn hex_index(i: int) -> int {
    if i < 8 {
        i
    } else if i < 13 {
        i - 1
    } else if i < 18 {
        i - 2
    } else if i < 23 {
        i - 3
    } else {
        i - 4
    }
}

/// One character of the hyphenated rendering.
pub open spec fn hyph_char(hi: u64, lo: u64, i: int) -> char {
    if i == 8 || i == 13 || i == 18 || i == 23 {
        '-'
    } else {
        hex_digit(nibble(hi, lo, hex_index(i)))
    }
}

/// The canonical rendering: 32 lowercase hex digits in groups of 8-4-4-4-12,
/// 36 characters in all.
pub open spec fn hyphenated_of(hi: u64, lo: u64) -> Seq<char> {
    Seq::new(36, |i: int| hyph_char(hi, lo, i))
}

/// What `uuid::Uuid::try_parse` yields on a given string, as the parsed
/// value's 64-bit halves: `None` exactly where the parser rejects the string.
/// The result depends on the characters alone.
pub uninterp spec fn parsed_uuid(s: Seq<char>) -> Option<(u64, u64)>;

/// A string that parses as a version-4 UUID, and the value it denotes.
pub open spec fn parsed_v4(s: Seq<char>) -> Option<Uuid> {
    match parsed_uuid(s) {
        Some((hi, lo)) => {
            let u = Uuid { hi, lo };
            if is_v4(u) {
                Some(u)
            } else {
                None
            }
        },
        None => None,
    }
}

/// Relies on `uuid::Uuid::try_parse` (with `as_u64_pair` splitting the
/// value): accepts the simple, hyphenated, braced and urn forms; the result
/// is a function of the characters alone.
#[verifier::external_body]
fn uuid_try_parse(s: &str) -> (r: Option<Uuid>)
    ensures
        r matches Some(u) ==> parsed_uuid(s@) == Some((u.hi, u.lo)),
        r is None ==> parsed_uuid(s@) is None,
{
    match uuid::Uuid::try_parse(s) {
        Ok(u) => {
            let (hi, lo) = u.as_u64_pair();
            Some(Uuid { hi, lo })
        },
        Err(_) => None,
    }
}

/// Relies on `uuid::Uuid`'s hyphenated `Display` form (via `from_u64_pair`):
/// 32 lowercase hex digits in groups of 8-4-4-4-12, most significant nibble
/// first, and `try_parse` maps that rendering back to the same value.
#[verifier::external_body]
fn uuid_render_hyphenated(hi: u64, lo: u64) -> (r: String)
    ensures
        r@ == hyphenated_of(hi, lo),
        parsed_uuid(r@) == Some((hi, lo)),
{
    uuid::Uuid::from_u64_pair(hi, lo).hyphenated().to_string()
}

/// Relies on `uuid::Uuid::new_v4`: the minted value carries version 4 and the
/// RFC variant bits; the remaining bits are random, so nothing more is known
/// of them.
#[verifier::external_body]
fn uuid_mint_v4() -> (r: Uuid)
    ensures
        is_v4(r),
{
    let (hi, lo) = uuid::Uuid::new_v4().as_u64_pair();
    Uuid { hi, lo }
}

impl Uuid {
    /// Whether this id carries the version-4 and RFC-variant bits.
    pub fn is_version4(&self) -> (b: bool)
        ensures
            b == is_v4(*self),
    {
        ((self.hi >> 12) & 0xf) == 4 && (self.lo >> 62) == 2
    }

    /// Parse a string in any form the parser accepts, without a version check.
    pub fn parse(s: &str) -> (r: Option<Uuid>)
        ensures
            r matches Some(u) ==> parsed_uuid(s@) == Some((u.hi, u.lo)),
            r is None ==> parsed_uuid(s@) is None,
    {
        uuid_try_parse(s)
    }

    /// Parse a string and accept it only if it denotes a version-4 UUID.
    pub fn parse_v4(s: &str) -> (r: Option<Uuid>)
        ensures
            r == parsed_v4(s@),
    {
        match uuid_try_parse(s) {
            Some(u) => {
                if u.is_version4() {
                    Some(u)
                } else {
                    None
                }
            },
            None => None,
        }
    }

    /// Mint a fresh random version-4 id.
    pub fn new_v4() -> (r: Uuid)
        ensures
            is_v4(r),
    {
        uuid_mint_v4()
    }

    /// Render the canonical lowercase hyphenated string.
    pub fn hyphenated_string(&self) -> (r: String)
        ensures
            r@ == hyphenated_of(self.hi, self.lo),
            parsed_uuid(r@) == Some((self.hi, self.lo)),
    {
        uuid_render_hyphenated(self.hi, self.lo)
    }
}

/// The nibbles of one 64-bit half, most significant first.
pub open spec fn nib(x: u64, i: int) -> u64 {
    (x >> (((15 - i) * 4) as u64)) & 0xf
}

proof fn lemma_mask_bound(x: u64, s: u64)
    ensures
        (x >> s) & 0xf < 16,
{
    assert((x >> s) & 0xf < 16) by (bit_vector);
}

proof fn lemma_hex_digit_injective(m: u64, n: u64)
    requires
        m < 16,
        n < 16,
        hex_digit(m) == hex_digit(n),
    ensures
        m == n,
{
}

proof fn lemma_nibbles_determine(x: u64, y: u64)
    requires
        forall|i: int| 0 <= i < 16 ==> #[trigger] nib(x, i) == nib(y, i),
    ensures
        x == y,
{
    assert(nib(x, 0) == nib(y, 0));
    assert(nib(x, 1) == nib(y, 1));
    assert(nib(x, 2) == nib(y, 2));
    assert(nib(x, 3) == nib(y, 3));
    assert(nib(x, 4) == nib(y, 4));
    assert(nib(x, 5) == nib(y, 5));
    assert(nib(x, 6) == nib(y, 6));
    assert(nib(x, 7) == nib(y, 7));
    assert(nib(x, 8) == nib(y, 8));
    assert(nib(x, 9) == nib(y, 9));
    assert(nib(x, 10) == nib(y, 10));
    assert(nib(x, 11) == nib(y, 11));
    assert(nib(x, 12) == nib(y, 12));
    assert(nib(x, 13) == nib(y, 13));
    assert(nib(x, 14) == nib(y, 14));
    assert(nib(x, 15) == nib(y, 15));
    assert(x == y) by (bit_vector)
        requires
            (x >> 60u64) & 0xf == (y >> 60u64) & 0xf,
            (x >> 56u64) & 0xf == (y >> 56u64) & 0xf,
            (x >> 52u64) & 0xf == (y >> 52u64) & 0xf,
            (x >> 48u64) & 0xf == (y >> 48u64) & 0xf,
            (x >> 44u64) & 0xf == (y >> 44u64) & 0xf,
            (x >> 40u64) & 0xf == (y >> 40u64) & 0xf,
            (x >> 36u64) & 0xf == (y >> 36u64) & 0xf,
            (x >> 32u64) & 0xf == (y >> 32u64) & 0xf,
            (x >> 28u64) & 0xf == (y >> 28u64) & 0xf,
            (x >> 24u64) & 0xf == (y >> 24u64) & 0xf,
            (x >> 20u64) & 0xf == (y >> 20u64) & 0xf,
            (x >> 16u64) & 0xf == (y >> 16u64) & 0xf,
            (x >> 12u64) & 0xf == (y >> 12u64) & 0xf,
            (x >> 8u64) & 0xf == (y >> 8u64) & 0xf,
            (x >> 4u64) & 0xf == (y >> 4u64) & 0xf,
            (x >> 0u64) & 0xf == (y >> 0u64) & 0xf,
    ;
}

/// Two values that render to the same hyphenated string are the same value:
/// every nibble can be read back out of its hex digit.
pub proof fn lemma_hyphenated_injective(a: Uuid, b: Uuid)
    requires
        hyphenated_of(a.hi, a.lo) == hyphenated_of(b.hi, b.lo),
    ensures
        a == b,
{
    assert forall|i: int| 0 <= i < 32 implies nibble(a.hi, a.lo, i) == nibble(b.hi, b.lo, i) by {
        let p = if i < 8 {
            i
        } else if i < 12 {
            i + 1
        } else if i < 16 {
            i + 2
        } else if i < 20 {
            i + 3
        } else {
            i + 4
        };
        assert(hyphenated_of(a.hi, a.lo)[p] == hyph_char(a.hi, a.lo, p));
        assert(hyphenated_of(b.hi, b.lo)[p] == hyph_char(b.hi, b.lo, p));
        assert(hyphenated_of(a.hi, a.lo)[p] == hyphenated_of(b.hi, b.lo)[p]);
        assert(hex_index(p) == i);
        if i < 16 {
            lemma_mask_bound(a.hi, (((15 - i) * 4) as u64));
            lemma_mask_bound(b.hi, (((15 - i) * 4) as u64));
        } else {
            lemma_mask_bound(a.lo, (((31 - i) * 4) as u64));
            lemma_mask_bound(b.lo, (((31 - i) * 4) as u64));
        }
        lemma_hex_digit_injective(nibble(a.hi, a.lo, i), nibble(b.hi, b.lo, i));
    }
    assert forall|i: int| 0 <= i < 16 implies #[trigger] nib(a.hi, i) == nib(b.hi, i) by {
        assert(nibble(a.hi, a.lo, i) == nibble(b.hi, b.lo, i));
    }
    assert forall|i: int| 0 <= i < 16 implies #[trigger] nib(a.lo, i) == nib(b.lo, i) by {
        assert(nibble(a.hi, a.lo, i + 16) == nibble(b.hi, b.lo, i + 16));
    }
    lemma_nibbles_determine(a.hi, b.hi);
    lemma_nibbles_determine(a.lo, b.lo);
}

} // verus!
