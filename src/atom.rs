//! Log records and the fixed-width little-endian layout of their fields.
use vstd::bytes::*;
use vstd::prelude::*;
use vstd::slice::slice_subrange;

verus! {

/// A fixed-width type with a little-endian byte layout: every byte string
/// of the right width reads back as exactly one value.
pub trait Exchangable: Sized {
    /// Width of the layout, in bytes.
    spec fn spec_width() -> nat;

    /// The layout of `self`.
    spec fn spec_bytes(self) -> Seq<u8>;

    /// The name of the type, as written in Rust.
    spec fn spec_label() -> Seq<char>;

    fn label() -> (r: &'static str)
        ensures
            r@ == Self::spec_label(),
    ;

    /// A copy of `self`.
    fn duplicate(&self) -> (r: Self)
        ensures
            r == *self,
    ;

    fn width() -> (w: usize)
        ensures
            w == Self::spec_width(),
            w <= 16,
    ;

    /// The value whose layout is all zero bytes.
    fn zeroed() -> (r: Self)
        ensures
            r.spec_bytes() == Seq::new(Self::spec_width(), |i: int| 0u8),
    ;

    /// Appends the layout of `self` to `out`.
    fn write_bytes(&self, out: &mut Vec<u8>)
        ensures
            final(out)@ == old(out)@ + self.spec_bytes(),
    ;

    /// Reads the value laid out at `bytes[start .. start + width]`.
    fn read_bytes(bytes: &[u8], start: usize) -> (r: Self)
        requires
            start + Self::spec_width() <= bytes@.len(),
        ensures
            r.spec_bytes() == bytes@.subrange(start as int, start + Self::spec_width()),
    ;

    proof fn lemma_layout(self)
        ensures
            self.spec_bytes().len() == Self::spec_width(),
            Self::spec_width() <= 16,
    ;

    proof fn lemma_injective(a: Self, b: Self)
        ensures
            a.spec_bytes() == b.spec_bytes() ==> a == b,
    ;
}

impl Exchangable for () {
    open spec fn spec_width() -> nat {
        0
    }

    open spec fn spec_bytes(self) -> Seq<u8> {
        Seq::empty()
    }

    open spec fn spec_label() -> Seq<char> {
        "()"@
    }

    fn label() -> (r: &'static str) {
        "()"
    }

    fn duplicate(&self) -> (r: Self) {
        *self
    }

    fn width() -> (w: usize) {
        0
    }

    fn zeroed() -> (r: Self) {
        assert(Seq::<u8>::empty() =~= Seq::new(0, |i: int| 0u8));
    }

    fn write_bytes(&self, out: &mut Vec<u8>) {
        assert(out@ =~= out@ + Seq::<u8>::empty());
    }

    fn read_bytes(bytes: &[u8], start: usize) -> (r: Self) {
        assert(bytes@.subrange(start as int, start as int) =~= Seq::<u8>::empty());
    }

    proof fn lemma_layout(self) {
    }

    proof fn lemma_injective(a: Self, b: Self) {
    }
}

impl Exchangable for u8 {
    open spec fn spec_width() -> nat {
        1
    }

    open spec fn spec_bytes(self) -> Seq<u8> {
        seq![self]
    }

    open spec fn spec_label() -> Seq<char> {
        "u8"@
    }

    fn label() -> (r: &'static str) {
        "u8"
    }

    fn duplicate(&self) -> (r: Self) {
        *self
    }

    fn width() -> (w: usize) {
        1
    }

    fn zeroed() -> (r: Self) {
        assert(seq![0u8] =~= Seq::new(1, |i: int| 0u8));
        0
    }

    fn write_bytes(&self, out: &mut Vec<u8>) {
        out.push(*self);
    }

    fn read_bytes(bytes: &[u8], start: usize) -> (r: Self) {
        let b = bytes[start];
        assert(seq![b] =~= bytes@.subrange(start as int, start + 1));
        b
    }

    proof fn lemma_layout(self) {
    }

    proof fn lemma_injective(a: Self, b: Self) {
        assert(a.spec_bytes()[0] == a);
        assert(b.spec_bytes()[0] == b);
    }
}

impl Exchangable for u32 {
    open spec fn spec_width() -> nat {
        4
    }

    open spec fn spec_bytes(self) -> Seq<u8> {
        spec_u32_to_le_bytes(self)
    }

    open spec fn spec_label() -> Seq<char> {
        "u32"@
    }

    fn label() -> (r: &'static str) {
        "u32"
    }

    fn duplicate(&self) -> (r: Self) {
        *self
    }

    fn width() -> (w: usize) {
        4
    }

    fn zeroed() -> (r: Self) {
        let zeros = vec![0u8; 4];
        let r = Self::read_bytes(zeros.as_slice(), 0);
        assert(zeros@.subrange(0, 4) =~= Seq::new(4, |i: int| 0u8));
        r
    }

    fn write_bytes(&self, out: &mut Vec<u8>) {
        let mut v = u32_to_le_bytes(*self);
        out.append(&mut v);
    }

    fn read_bytes(bytes: &[u8], start: usize) -> (r: Self) {
        let n = bytes.len();
        let s = slice_subrange(bytes, start, start + 4);
        let x = u32_from_le_bytes(s);
        proof {
            lemma_auto_spec_u32_to_from_le_bytes();
            
        }
        x
    }

    proof fn lemma_layout(self) {
        lemma_auto_spec_u32_to_from_le_bytes();
    }

    proof fn lemma_injective(a: Self, b: Self) {
        lemma_auto_spec_u32_to_from_le_bytes();
        assert(spec_u32_to_le_bytes(a as u32).len() == 4);
        assert(spec_u32_to_le_bytes(b as u32).len() == 4);
        
    }
}

impl Exchangable for u64 {
    open spec fn spec_width() -> nat {
        8
    }

    open spec fn spec_bytes(self) -> Seq<u8> {
        spec_u64_to_le_bytes(self)
    }

    open spec fn spec_label() -> Seq<char> {
        "u64"@
    }

    fn label() -> (r: &'static str) {
        "u64"
    }

    fn duplicate(&self) -> (r: Self) {
        *self
    }

    fn width() -> (w: usize) {
        8
    }

    fn zeroed() -> (r: Self) {
        let zeros = vec![0u8; 8];
        let r = Self::read_bytes(zeros.as_slice(), 0);
        assert(zeros@.subrange(0, 8) =~= Seq::new(8, |i: int| 0u8));
        r
    }

    fn write_bytes(&self, out: &mut Vec<u8>) {
        let mut v = u64_to_le_bytes(*self);
        out.append(&mut v);
    }

    fn read_bytes(bytes: &[u8], start: usize) -> (r: Self) {
        let n = bytes.len();
        let s = slice_subrange(bytes, start, start + 8);
        let x = u64_from_le_bytes(s);
        proof {
            lemma_auto_spec_u64_to_from_le_bytes();
            
        }
        x
    }

    proof fn lemma_layout(self) {
        lemma_auto_spec_u64_to_from_le_bytes();
    }

    proof fn lemma_injective(a: Self, b: Self) {
        lemma_auto_spec_u64_to_from_le_bytes();
        assert(spec_u64_from_le_bytes(spec_u64_to_le_bytes(a as u64)) == a as u64);
        assert(spec_u64_from_le_bytes(spec_u64_to_le_bytes(b as u64)) == b as u64);
        
    }
}

impl Exchangable for i32 {
    open spec fn spec_width() -> nat {
        4
    }

    open spec fn spec_bytes(self) -> Seq<u8> {
        spec_u32_to_le_bytes(self as u32)
    }

    open spec fn spec_label() -> Seq<char> {
        "i32"@
    }

    fn label() -> (r: &'static str) {
        "i32"
    }

    fn duplicate(&self) -> (r: Self) {
        *self
    }

    fn width() -> (w: usize) {
        4
    }

    fn zeroed() -> (r: Self) {
        let zeros = vec![0u8; 4];
        let r = Self::read_bytes(zeros.as_slice(), 0);
        assert(zeros@.subrange(0, 4) =~= Seq::new(4, |i: int| 0u8));
        r
    }

    fn write_bytes(&self, out: &mut Vec<u8>) {
        let mut v = u32_to_le_bytes(#[verifier::truncate] (*self as u32));
        out.append(&mut v);
    }

    fn read_bytes(bytes: &[u8], start: usize) -> (r: Self) {
        let n = bytes.len();
        let s = slice_subrange(bytes, start, start + 4);
        let x = u32_from_le_bytes(s);
        proof {
            lemma_auto_spec_u32_to_from_le_bytes();
            assert(((x as i32) as u32) == x) by (bit_vector);
        }
        #[verifier::truncate] (x as i32)
    }

    proof fn lemma_layout(self) {
        lemma_auto_spec_u32_to_from_le_bytes();
    }

    proof fn lemma_injective(a: Self, b: Self) {
        lemma_auto_spec_u32_to_from_le_bytes();
        assert(spec_u32_to_le_bytes(a as u32).len() == 4);
        assert(spec_u32_to_le_bytes(b as u32).len() == 4);
        assert((a as u32) == (b as u32) ==> a == b) by (bit_vector);
    }
}

impl Exchangable for i64 {
    open spec fn spec_width() -> nat {
        8
    }

    open spec fn spec_bytes(self) -> Seq<u8> {
        spec_u64_to_le_bytes(self as u64)
    }

    open spec fn spec_label() -> Seq<char> {
        "i64"@
    }

    fn label() -> (r: &'static str) {
        "i64"
    }

    fn duplicate(&self) -> (r: Self) {
        *self
    }

    fn width() -> (w: usize) {
        8
    }

    fn zeroed() -> (r: Self) {
        let zeros = vec![0u8; 8];
        let r = Self::read_bytes(zeros.as_slice(), 0);
        assert(zeros@.subrange(0, 8) =~= Seq::new(8, |i: int| 0u8));
        r
    }

    fn write_bytes(&self, out: &mut Vec<u8>) {
        let mut v = u64_to_le_bytes(#[verifier::truncate] (*self as u64));
        out.append(&mut v);
    }

    fn read_bytes(bytes: &[u8], start: usize) -> (r: Self) {
        let n = bytes.len();
        let s = slice_subrange(bytes, start, start + 8);
        let x = u64_from_le_bytes(s);
        proof {
            lemma_auto_spec_u64_to_from_le_bytes();
            assert(((x as i64) as u64) == x) by (bit_vector);
        }
        #[verifier::truncate] (x as i64)
    }

    proof fn lemma_layout(self) {
        lemma_auto_spec_u64_to_from_le_bytes();
    }

    proof fn lemma_injective(a: Self, b: Self) {
        lemma_auto_spec_u64_to_from_le_bytes();
        assert(spec_u64_from_le_bytes(spec_u64_to_le_bytes(a as u64)) == a as u64);
        assert(spec_u64_from_le_bytes(spec_u64_to_le_bytes(b as u64)) == b as u64);
        assert((a as u64) == (b as u64) ==> a == b) by (bit_vector);
    }
}

/// A key type of a column: fixed-width, copyable and hashable.
pub trait Key: Exchangable + Copy + Eq + std::hash::Hash {

}

impl Key for u8 {

}

impl Key for u32 {

}

impl Key for u64 {

}

impl Key for i32 {

}

impl Key for i64 {

}

/// A mark for the types whose values a column can hold.
pub trait Valuable {

}

/// The value of `T` whose layout is all zero bytes.
pub open spec fn zero_of<T: Exchangable>() -> T {
    choose|t: T| t.spec_bytes() == Seq::new(T::spec_width(), |i: int| 0u8)
}

/// A value laid out as zero bytes is `zero_of`.
pub proof fn lemma_zero_of<T: Exchangable>(t: T)
    requires
        t.spec_bytes() == Seq::new(T::spec_width(), |i: int| 0u8),
    ensures
        t == zero_of::<T>(),
{
    let z = zero_of::<T>();
    T::lemma_injective(t, z);
}

/// Operation byte of a record that creates an absent key.
pub const CREATE: u8 = 0;

/// Operation byte of a record that replaces the value of a present key.
pub const UPDATE: u8 = 1;

/// Operation byte of a record that merges a delta into a present key.
pub const MERGE: u8 = 2;

/// Operation byte of a record that deletes a present key.
pub const DELETE: u8 = 3;

/// One log record: an operation byte, a key, a value and a delta. The
/// fields that the operation does not use hold zero bytes.
#[derive(Debug, Clone, Copy, PartialEq, Eq)]
pub struct Atom<K, V, D> {
    pub op: u8,
    pub key: K,
    pub value: V,
    pub delta: D,
}

impl<K: Exchangable, V: Exchangable, D: Exchangable> Atom<K, V, D> {
    /// Width of one record: the operation byte and the three fields.
    pub open spec fn spec_len() -> nat {
        1 + K::spec_width() + V::spec_width() + D::spec_width()
    }

    /// The packed layout of the record.
    pub open spec fn spec_bytes(self) -> Seq<u8> {
        seq![self.op] + self.key.spec_bytes() + self.value.spec_bytes() + self.delta.spec_bytes()
    }

    pub fn new(op: u8, key: K, value: V, delta: D) -> (r: Self)
        ensures
            r == (Atom { op, key, value, delta }),
    {
        Atom { op, key, value, delta }
    }

    /// The four fields, in layout order.
    pub fn into_align(self) -> (r: (u8, K, V, D))
        ensures
            r == (self.op, self.key, self.value, self.delta),
    {
        (self.op, self.key, self.value, self.delta)
    }

    /// Width of one record, in bytes.
    pub fn len() -> (r: usize)
        ensures
            r == Self::spec_len(),
            1 <= r <= 49,
    {
        1 + K::width() + V::width() + D::width()
    }

    /// The name of the record type, `Atom<K, V, D>` with the names of the
    /// three field types; a log derives its schema fingerprint from it.
    pub open spec fn spec_name() -> Seq<char> {
        "Atom<"@ + K::spec_label() + ", "@ + V::spec_label() + ", "@ + D::spec_label() + ">"@
    }

    pub fn name() -> (r: String)
        ensures
            r@ == Self::spec_name(),
    {
        let mut r = String::from_str("Atom<");
        r.append(K::label());
        r.append(", ");
        r.append(V::label());
        r.append(", ");
        r.append(D::label());
        r.append(">");
        r
    }

    /// A copy of the record.
    pub fn duplicate(&self) -> (r: Self)
        ensures
            r == *self,
    {
        Atom {
            op: self.op,
            key: self.key.duplicate(),
            value: self.value.duplicate(),
            delta: self.delta.duplicate(),
        }
    }

    /// Appends the packed layout of the record to `out`.
    pub fn write_bytes(&self, out: &mut Vec<u8>)
        ensures
            final(out)@ == old(out)@ + self.spec_bytes(),
    {
        out.push(self.op);
        self.key.write_bytes(out);
        self.value.write_bytes(out);
        self.delta.write_bytes(out);
        assert(out@ =~= old(out)@ + self.spec_bytes());
    }

    /// Reads the record laid out at `bytes[start .. start + len]`.
    pub fn read_bytes(bytes: &[u8], start: usize) -> (r: Self)
        requires
            start + Self::spec_len() <= bytes@.len(),
        ensures
            r.spec_bytes() == bytes@.subrange(start as int, start + Self::spec_len()),
    {
        let n = bytes.len();
        let kw = K::width();
        let vw = V::width();
        let op = bytes[start];
        let key = K::read_bytes(bytes, start + 1);
        let value = V::read_bytes(bytes, start + 1 + kw);
        let delta = D::read_bytes(bytes, start + 1 + kw + vw);
        let r = Atom { op, key, value, delta };
        proof {
            let s = start as int;
            assert(r.spec_bytes() =~= bytes@.subrange(s, s + Self::spec_len()));
        }
        r
    }

    pub proof fn lemma_layout(self)
        ensures
            self.spec_bytes().len() == Self::spec_len(),
            Self::spec_len() <= 49,
    {
        self.key.lemma_layout();
        self.value.lemma_layout();
        self.delta.lemma_layout();
    }

    /// Two records with the same layout are the same record.
    pub proof fn lemma_injective(a: Self, b: Self)
        ensures
            a.spec_bytes() == b.spec_bytes() ==> a == b,
    {
        if a.spec_bytes() == b.spec_bytes() {
            a.lemma_layout();
            b.lemma_layout();
            a.key.lemma_layout();
            b.key.lemma_layout();
            a.value.lemma_layout();
            b.value.lemma_layout();
            a.delta.lemma_layout();
            b.delta.lemma_layout();
            let kw = K::spec_width() as int;
            let vw = V::spec_width() as int;
            let dw = D::spec_width() as int;
            let sa = a.spec_bytes();
            let sb = b.spec_bytes();
            assert(sa[0] == a.op);
            assert(sb[0] == b.op);
            assert(a.key.spec_bytes() =~= sa.subrange(1, 1 + kw));
            assert(b.key.spec_bytes() =~= sb.subrange(1, 1 + kw));
            assert(a.value.spec_bytes() =~= sa.subrange(1 + kw, 1 + kw + vw));
            assert(b.value.spec_bytes() =~= sb.subrange(1 + kw, 1 + kw + vw));
            assert(a.delta.spec_bytes() =~= sa.subrange(1 + kw + vw, 1 + kw + vw + dw));
            assert(b.delta.spec_bytes() =~= sb.subrange(1 + kw + vw, 1 + kw + vw + dw));
            K::lemma_injective(a.key, b.key);
            V::lemma_injective(a.value, b.value);
            D::lemma_injective(a.delta, b.delta);
        }
    }
}

/// A sink for log records, such as the writer of a log file.
pub trait LogWriter<K, V, D> {
    /// Takes one record; must not block.
    fn save_one(&mut self, data: Atom<K, V, D>);
}

/// The sink that drops every record.
impl<K, V, D> LogWriter<K, V, D> for () {
    fn save_one(&mut self, data: Atom<K, V, D>) {
    }
}

/// A buffer of records kept in memory, in arrival order.
impl<K, V, D> LogWriter<K, V, D> for Vec<Atom<K, V, D>> {
    fn save_one(&mut self, data: Atom<K, V, D>)
        ensures
            final(self)@ == old(self)@.push(data),
    {
        self.push(data);
    }
}

/// A source of log records, oldest first.
pub trait LogReader<K, V, D> {
    /// Copies of the records, oldest first.
    fn atoms(&self) -> Vec<Atom<K, V, D>>;
}

/// The records of an in-memory buffer.
impl<K: Exchangable, V: Exchangable, D: Exchangable> LogReader<K, V, D> for Vec<Atom<K, V, D>> {
    fn atoms(&self) -> (r: Vec<Atom<K, V, D>>)
        ensures
            r@ == self@,
    {
        let mut r = Vec::new();
        let mut i: usize = 0;
        while i < self.len()
            invariant
                i <= self@.len(),
                r@ == self@.take(i as int),
            decreases self@.len() - i,
        {
            r.push(self[i].duplicate());
            i = i + 1;
            proof {
                assert(r@ =~= self@.take(i as int));
            }
        }
        proof {
            assert(self@.take(self@.len() as int) =~= self@);
        }
        r
    }
}

} // verus!
