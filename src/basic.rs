//! Small fixed-width identifiers: entity ids and short texts kept in byte
//! arrays, so that they stay `Copy`.
use vstd::bytes::{spec_u64_from_le_bytes, spec_u64_to_le_bytes, u64_from_le_bytes, u64_to_le_bytes, lemma_auto_spec_u64_to_from_le_bytes};
use vstd::prelude::*;
use vstd::slice::slice_subrange;
use vstd::string::StringSliceAdditionalSpecFns;
use vstd::utf8::{is_char_boundary, is_continuation_byte, is_leading_byte_width_1, partial_valid_utf8, valid_utf8};

verus! {

broadcast use {
    vstd::utf8::encode_utf8_valid_utf8,
    vstd::utf8::is_char_boundary_start_end_of_seq,
    vstd::utf8::valid_utf8_split,
    vstd::utf8::valid_utf8_concat,
    vstd::utf8::is_char_boundary_iff_not_is_continuation_byte,
    vstd::array::array_len_matches_n,
};

/// The unique identifier of an entity: a `u64` kept as 8 little-endian
/// bytes. The id 0 is the empty, invalid id.
#[derive(Debug, Clone, Copy, PartialEq, Eq, PartialOrd, Ord, Hash)]
pub struct EID([u8; 8]);

impl View for EID {
    type V = u64;

    closed spec fn view(&self) -> u64 {
        spec_u64_from_le_bytes(self.0@)
    }
}

impl EID {
    /// The id of the number `value`.
    pub fn new(value: u64) -> (r: Self)
        ensures
            r@ == value,
    {
        let v = u64_to_le_bytes(value);
        let mut b = [0u8; 8];
        let mut i: usize = 0;
        while i < 8
            invariant
                i <= 8,
                v@.len() == 8,
                forall|j: int| 0 <= j < i ==> b@[j] == v@[j],
            decreases 8 - i,
        {
            b.set(i, v[i]);
            i = i + 1;
        }
        proof {
            assert(b@ =~= v@);
            lemma_auto_spec_u64_to_from_le_bytes();
        }
        EID(b)
    }

    /// The empty id, which is invalid.
    pub fn empty() -> (r: Self)
        ensures
            r@ == 0,
    {
        let r = EID([0u8; 8]);
        proof {
            lemma_zero_le_bytes();
            assert(r.0@ =~= Seq::new(8, |j: int| 0u8));
        }
        r
    }

    /// Whether the id is not the empty one.
    pub fn is_valid(&self) -> (r: bool)
        ensures
            r == (self@ != 0),
    {
        let mut i: usize = 0;
        while i < 8
            invariant
                i <= 8,
                forall|j: int| 0 <= j < i ==> self.0@[j] == 0,
            decreases 8 - i,
        {
            if self.0[i] != 0 {
                proof {
                    lemma_zero_le_bytes();
                    lemma_auto_spec_u64_to_from_le_bytes();
                    assert(spec_u64_to_le_bytes(spec_u64_from_le_bytes(self.0@)) == self.0@);
                }
                return true;
            }
            i = i + 1;
        }
        proof {
            assert(self.0@ =~= Seq::new(8, |j: int| 0u8));
            lemma_zero_le_bytes();
        }
        false
    }

    /// The number of the id.
    pub fn as_u64(&self) -> (r: u64)
        ensures
            r == self@,
    {
        u64_from_le_bytes(self.0.as_slice())
    }
}

/// The largest index `j <= i` that starts a character of `b` (below the
/// end of `b`), or 0 when there is none.
pub open spec fn cut_point(b: Seq<u8>, i: int) -> int
    decreases i,
{
    if i <= 0 {
        0
    } else if i < b.len() && is_char_boundary(b, i) {
        i
    } else {
        cut_point(b, i - 1)
    }
}

/// What `cut_point` gives: an index within reach that starts a character
/// (or 0), with no character start between it and `i`.
pub proof fn lemma_cut_point(b: Seq<u8>, i: int)
    requires
        valid_utf8(b),
    ensures
        0 <= cut_point(b, i),
        cut_point(b, i) <= i || cut_point(b, i) == 0,
        cut_point(b, i) <= b.len(),
        is_char_boundary(b, cut_point(b, i)),
        forall|j: int| cut_point(b, i) < j <= i && j < b.len() ==> !is_char_boundary(b, j),
    decreases i,
{
    if i > 0 && !(i < b.len() && is_char_boundary(b, i)) {
        lemma_cut_point(b, i - 1);
    }
}

/// Cuts `s` at the start of its last character that begins at or before
/// byte `max_length` (and before the end of `s`). Returns the cut index and
/// the bytes before it.
pub fn truncate_utf8(s: &str, max_length: usize) -> (r: (usize, &[u8]))
    ensures
        r.0 == cut_point(s.spec_bytes(), max_length as int),
        r.1@ == s.spec_bytes().subrange(0, r.0 as int),
{
    let bytes = s.as_bytes();
    let n = bytes.len();
    let mut i: usize = if n == 0 {
        0
    } else if max_length >= n {
        n - 1
    } else {
        max_length
    };
    proof {
        assert(cut_point(s.spec_bytes(), max_length as int) == cut_point(s.spec_bytes(), i as int)) by {
            lemma_cut_point_skip(s.spec_bytes(), max_length as int, i as int);
        }
    }
    while i > 0 && !s.is_char_boundary(i)
        invariant
            n == s.spec_bytes().len(),
            bytes@ == s.spec_bytes(),
            n == 0 ==> i == 0,
            n > 0 ==> i < n,
            cut_point(s.spec_bytes(), max_length as int) == cut_point(s.spec_bytes(), i as int),
        decreases i,
    {
        i = i - 1;
    }
    proof {
        lemma_cut_point(s.spec_bytes(), i as int);
    }
    (i, slice_subrange(bytes, 0, i))
}

/// Beyond the end of `b`, no index starts a character.
proof fn lemma_cut_point_skip(b: Seq<u8>, i: int, j: int)
    requires
        0 <= j <= i,
        j == i || j + 1 >= b.len(),
    ensures
        cut_point(b, i) == cut_point(b, j),
    decreases i,
{
    if i > j {
        lemma_cut_point_skip(b, i - 1, j);
    }
}

/// The `n` bytes that `write_str_into` makes of the text bytes `b`: `b`
/// itself when it fits, else `b` cut at `cut_point(b, n)`; then zeros.
pub open spec fn fitted(b: Seq<u8>, n: int) -> Seq<u8> {
    let c = if b.len() <= n {
        b.len() as int
    } else {
        cut_point(b, n)
    };
    b.subrange(0, c) + Seq::new((n - c) as nat, |i: int| 0u8)
}

/// Writes `raw` into an `N`-byte buffer: whole when it fits, else cut
/// before the first character that would not fit whole; the rest of the
/// buffer is zero.
pub fn write_str_into<const N: usize>(raw: &str) -> (r: [u8; N])
    ensures
        r@ == fitted(raw.spec_bytes(), N as int),
        valid_utf8(r@),
{
    let mut buf = [0u8; N];
    let bytes = raw.as_bytes();
    let len = bytes.len();
    let c: usize = if len <= N {
        len
    } else {
        let (cut, _) = truncate_utf8(raw, N);
        proof {
            lemma_cut_point(raw.spec_bytes(), N as int);
        }
        cut
    };
    let mut i: usize = 0;
    while i < c
        invariant
            i <= c <= N,
            c <= len,
            bytes@ == raw.spec_bytes(),
            len == bytes@.len(),
            buf@.len() == N,
            forall|j: int| 0 <= j < i ==> buf@[j] == bytes@[j],
            forall|j: int| c <= j < N ==> buf@[j] == 0,
        decreases c - i,
    {
        buf.set(i, bytes[i]);
        i = i + 1;
    }
    proof {
        let b = raw.spec_bytes();
        vstd::utf8::encode_utf8_valid_utf8(raw@);
        assert(valid_utf8(b));
        vstd::utf8::is_char_boundary_start_end_of_seq(b);
        lemma_cut_point(b, N as int);
        assert(is_char_boundary(b, c as int));
        vstd::utf8::valid_utf8_split(b, c as int);
        lemma_zeros_valid((N - c) as nat);
        let z = Seq::new((N - c) as nat, |i: int| 0u8);
        vstd::utf8::valid_utf8_concat(b.subrange(0, c as int), z);
        assert(buf@ =~= b.subrange(0, c as int) + z);
        assert(buf@ =~= fitted(b, N as int));
    }
    buf
}

/// Zero bytes are valid UTF-8 (each encodes the character U+0000).
proof fn lemma_zeros_valid(n: nat)
    ensures
        valid_utf8(Seq::new(n, |i: int| 0u8)),
{
    let z = Seq::new(n, |i: int| 0u8);
    assert(z.subrange(0, 0) =~= Seq::<u8>::empty());
    assert(partial_valid_utf8(z, 0));
    assert forall|i: int| 0 <= 0 <= i < n <= z.len() implies #[trigger] is_leading_byte_width_1(z[i]) by {
    }
    vstd::utf8::partial_valid_utf8_extend_ascii_block(z, 0, n as int);
    assert(z.subrange(0, n as int) =~= z);
}

/// The length of `b` once its trailing zero bytes are dropped.
pub open spec fn trimmed_len(b: Seq<u8>) -> int
    decreases b.len(),
{
    if b.len() == 0 {
        0
    } else if b.last() == 0u8 {
        trimmed_len(b.drop_last())
    } else {
        b.len() as int
    }
}

proof fn lemma_trimmed_len(b: Seq<u8>)
    ensures
        0 <= trimmed_len(b) <= b.len(),
        forall|j: int| trimmed_len(b) <= j < b.len() ==> b[j] == 0,
        trimmed_len(b) > 0 ==> b[trimmed_len(b) - 1] != 0,
    decreases b.len(),
{
    if b.len() > 0 && b.last() == 0u8 {
        lemma_trimmed_len(b.drop_last());
        assert forall|j: int| trimmed_len(b) <= j < b.len() implies b[j] == 0 by {
            if j < b.len() - 1 {
                assert(b.drop_last()[j] == b[j]);
            }
        }
    }
}

/// Relies on `std::str::from_utf8`: on valid UTF-8 it returns the text
/// whose encoding is exactly those bytes.
#[verifier::external_body]
fn text_of<'a>(bytes: &'a [u8]) -> (r: &'a str)
    requires
        valid_utf8(bytes@),
    ensures
        r.spec_bytes() == bytes@,
{
    match std::str::from_utf8(bytes) {
        Ok(s) => s,
        Err(_) => "",
    }
}

/// The text held in a buffer of valid UTF-8, without its trailing NULs.
fn read_str_from(buf: &[u8]) -> (r: &str)
    requires
        valid_utf8(buf@),
    ensures
        r.spec_bytes() == buf@.subrange(0, trimmed_len(buf@)),
{
    let n = buf.len();
    let mut q: usize = n;
    proof {
        assert(buf@.subrange(0, n as int) =~= buf@);
    }
    while q > 0 && buf[q - 1] == 0
        invariant
            q <= n == buf@.len(),
            trimmed_len(buf@.subrange(0, q as int)) == trimmed_len(buf@),
        decreases q,
    {
        proof {
            assert(buf@.subrange(0, q as int).drop_last() =~= buf@.subrange(0, q - 1));
        }
        q = q - 1;
    }
    proof {
        let b = buf@;
        assert(trimmed_len(b.subrange(0, q as int)) == q);
        lemma_trimmed_len(b);
        vstd::utf8::is_char_boundary_start_end_of_seq(b);
        if q < n {
            assert(b[q as int] == 0);
            assert(!is_continuation_byte(b[q as int]));
            vstd::utf8::is_char_boundary_iff_not_is_continuation_byte(b, q as int);
        }
        vstd::utf8::valid_utf8_split(b, q as int);
    }
    text_of(slice_subrange(buf, 0, q))
}

/// A short text of at most 31 bytes, kept as valid UTF-8 padded with zero
/// bytes.
#[derive(Debug, Clone, Copy, PartialEq, Eq, PartialOrd, Ord, Hash)]
pub struct Marker([u8; 31]);

impl View for Marker {
    type V = Seq<u8>;

    closed spec fn view(&self) -> Seq<u8> {
        self.0@
    }
}

impl Marker {
    #[verifier::type_invariant]
    closed spec fn inv(self) -> bool {
        valid_utf8(self.0@)
    }

    /// The marker of `hint`, cut before the first character that would not
    /// fit in 31 bytes.
    pub fn new(hint: &str) -> (r: Self)
        ensures
            r@ == fitted(hint.spec_bytes(), 31),
    {
        Marker(write_str_into::<31>(hint))
    }

    /// The 31 bytes of the marker.
    pub fn as_bytes(&self) -> (r: [u8; 31])
        ensures
            r@ == self@,
    {
        self.0
    }

    /// The text of the marker, without its trailing NULs.
    pub fn as_ref(&self) -> (r: &str)
        ensures
            r.spec_bytes() == self@.subrange(0, trimmed_len(self@)),
    {
        proof {
            use_type_invariant(self);
        }
        read_str_from(self.0.as_slice())
    }
}

impl<'a> From<&'a str> for Marker {
    /// The same as `Marker::new`.
    fn from(hint: &'a str) -> (r: Marker) {
        let r = Marker::new(hint);
        proof {
            let c = choose|m: Marker| m@ == fitted(hint.spec_bytes(), 31);
            assert(c@ == r@);
            assert(c.0 =~= r.0);
        }
        r
    }
}

impl<'a> vstd::std_specs::convert::FromSpecImpl<&'a str> for Marker {
    open spec fn obeys_from_spec() -> bool {
        true
    }

    open spec fn from_spec(hint: &'a str) -> Marker {
        choose|m: Marker| m@ == fitted(hint.spec_bytes(), 31)
    }
}

/// A short name of a column, of at most 8 bytes, kept as valid UTF-8
/// padded with zero bytes.
#[derive(Debug, Clone, Copy, PartialEq, Eq, PartialOrd, Ord, Hash)]
pub struct PropTag([u8; 8]);

impl View for PropTag {
    type V = Seq<u8>;

    closed spec fn view(&self) -> Seq<u8> {
        self.0@
    }
}

impl PropTag {
    #[verifier::type_invariant]
    closed spec fn inv(self) -> bool {
        valid_utf8(self.0@)
    }

    /// The tag of `hint`, cut before the first character that would not fit
    /// in 8 bytes.
    pub fn new(hint: &str) -> (r: Self)
        ensures
            r@ == fitted(hint.spec_bytes(), 8),
    {
        PropTag(write_str_into::<8>(hint))
    }

    /// The 8 bytes of the tag.
    pub fn as_bytes(&self) -> (r: [u8; 8])
        ensures
            r@ == self@,
    {
        self.0
    }

    /// The text of the tag, without its trailing NULs.
    pub fn as_ref(&self) -> (r: &str)
        ensures
            r.spec_bytes() == self@.subrange(0, trimmed_len(self@)),
    {
        proof {
            use_type_invariant(self);
        }
        read_str_from(self.0.as_slice())
    }

    /// Whether two tags hold the same bytes.
    pub fn same(&self, other: &PropTag) -> (r: bool)
        ensures
            r == (self@ == other@),
    {
        let mut i: usize = 0;
        while i < 8
            invariant
                i <= 8,
                forall|j: int| 0 <= j < i ==> self.0@[j] == other.0@[j],
            decreases 8 - i,
        {
            if self.0[i] != other.0[i] {
                return false;
            }
            i = i + 1;
        }
        proof {
            assert(self.0@ =~= other.0@);
        }
        true
    }
}

impl From<u64> for EID {
    /// The same as `EID::new`.
    fn from(value: u64) -> (r: EID) {
        let r = EID::new(value);
        proof {
            let c = choose|e: EID| e@ == value;
            lemma_auto_spec_u64_to_from_le_bytes();
            assert(c.0@ == spec_u64_to_le_bytes(c@));
            assert(r.0@ == spec_u64_to_le_bytes(r@));
            assert(c.0 =~= r.0);
        }
        r
    }
}

impl vstd::std_specs::convert::FromSpecImpl<u64> for EID {
    open spec fn obeys_from_spec() -> bool {
        true
    }

    open spec fn from_spec(value: u64) -> EID {
        choose|e: EID| e@ == value
    }
}

impl<'a> From<&'a str> for PropTag {
    /// The same as `PropTag::new`.
    fn from(hint: &'a str) -> (r: PropTag) {
        let r = PropTag::new(hint);
        proof {
            let c = choose|t: PropTag| t@ == fitted(hint.spec_bytes(), 8);
            assert(c@ == r@);
            assert(c.0 =~= r.0);
        }
        r
    }
}

impl<'a> vstd::std_specs::convert::FromSpecImpl<&'a str> for PropTag {
    open spec fn obeys_from_spec() -> bool {
        true
    }

    open spec fn from_spec(hint: &'a str) -> PropTag {
        choose|t: PropTag| t@ == fitted(hint.spec_bytes(), 8)
    }
}

/// The number 0 is laid out as eight zero bytes.
proof fn lemma_zero_le_bytes()
    ensures
        spec_u64_to_le_bytes(0) == Seq::new(8, |j: int| 0u8),
        spec_u64_from_le_bytes(Seq::new(8, |j: int| 0u8)) == 0,
{
    vstd::bytes::spec_u64_to_le_bytes_to_open(0);
    let x: u64 = 0;
    assert(x & 0xff == 0 && (x >> 8) & 0xff == 0 && (x >> 16) & 0xff == 0 && (x >> 24) & 0xff == 0
        && (x >> 32) & 0xff == 0 && (x >> 40) & 0xff == 0 && (x >> 48) & 0xff == 0 && (x >> 56)
        & 0xff == 0) by (bit_vector)
        requires
            x == 0,
    ;
    assert(vstd::bytes::spec_u64_to_le_bytes_open(0) =~= Seq::new(8, |j: int| 0u8));
    lemma_auto_spec_u64_to_from_le_bytes();
    assert(spec_u64_to_le_bytes(0).len() == 8);
}

} // verus!
