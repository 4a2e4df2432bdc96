//! The append-only log: a 20-byte header followed by packed records.
//!
//! The header is the record width as a little-endian `u32` and a 16-byte
//! schema fingerprint, the name-based UUID (version 5, nil namespace) of the
//! record type's name. Records follow end to end, with no separators.
use crate::atom::{Atom, Exchangable};
use crate::error::Error;
use vstd::bytes::{spec_u32_from_le_bytes, spec_u32_to_le_bytes, u32_from_le_bytes, u32_to_le_bytes, lemma_auto_spec_u32_to_from_le_bytes};
use vstd::prelude::*;
use vstd::slice::slice_subrange;

verus! {

/// Width of the log header, in bytes.
pub const HEADER_LEN: usize = 20;

/// The 16 bytes of the version-5 UUID, in the nil namespace, of `name`.
pub uninterp spec fn name_uuid(name: Seq<u8>) -> Seq<u8>;

/// Relies on `uuid::Uuid::new_v5` with `uuid::Uuid::nil()` as namespace,
/// and `Uuid::into_bytes`: the 16 bytes of the name-based UUID, which depend
/// on the name alone.
#[verifier::external_body]
fn uuid_v5_nil(name: &[u8]) -> (r: [u8; 16])
    ensures
        r@ == name_uuid(name@),
{
    uuid::Uuid::new_v5(&uuid::Uuid::nil(), name).into_bytes()
}

/// The schema fingerprint of logs of `Atom<K, V, D>`.
pub open spec fn spec_schema_tag<K: Exchangable, V: Exchangable, D: Exchangable>() -> Seq<u8> {
    name_uuid(vstd::utf8::encode_utf8(Atom::<K, V, D>::spec_name()))
}

/// The schema fingerprint of logs of `Atom<K, V, D>`: the UUID of the
/// record type's name.
pub fn schema_tag<K: Exchangable, V: Exchangable, D: Exchangable>() -> (r: [u8; 16])
    ensures
        r@ == spec_schema_tag::<K, V, D>(),
{
    let name = Atom::<K, V, D>::name();
    uuid_v5_nil(name.as_str().as_bytes())
}

/// The header of a log whose records are `record_len` bytes wide and whose
/// fingerprint is `tag`.
pub open spec fn header_bytes(record_len: u32, tag: Seq<u8>) -> Seq<u8> {
    spec_u32_to_le_bytes(record_len) + tag
}

/// Lays out a log header.
pub fn encode_header(record_len: u32, tag: &[u8; 16]) -> (r: Vec<u8>)
    ensures
        r@ == header_bytes(record_len, tag@),
        r@.len() == HEADER_LEN,
{
    let mut r = u32_to_le_bytes(record_len);
    let mut i: usize = 0;
    while i < 16
        invariant
            i <= 16,
            r@ == spec_u32_to_le_bytes(record_len) + tag@.take(i as int),
            spec_u32_to_le_bytes(record_len).len() == 4,
        decreases 16 - i,
    {
        r.push(tag[i]);
        i = i + 1;
        proof {
            assert(tag@.take(i as int) =~= tag@.take(i - 1).push(tag@[i - 1]));
        }
    }
    proof {
        assert(tag@.take(16) =~= tag@);
    }
    r
}

/// The header of a new log of `Atom<K, V, D>`.
pub fn log_header<K: Exchangable, V: Exchangable, D: Exchangable>() -> (r: Vec<u8>)
    ensures
        r@ == header_bytes(Atom::<K, V, D>::spec_len() as u32, spec_schema_tag::<K, V, D>()),
{
    let tag = schema_tag::<K, V, D>();
    encode_header(Atom::<K, V, D>::len() as u32, &tag)
}

/// The records of `atoms`, packed end to end.
pub open spec fn records_bytes<K: Exchangable, V: Exchangable, D: Exchangable>(
    atoms: Seq<Atom<K, V, D>>,
) -> Seq<u8>
    decreases atoms.len(),
{
    if atoms.len() == 0 {
        Seq::empty()
    } else {
        records_bytes(atoms.drop_last()) + atoms.last().spec_bytes()
    }
}

/// Appends the packed records of `atoms` to `out`.
pub fn encode_records<K: Exchangable, V: Exchangable, D: Exchangable>(
    atoms: &Vec<Atom<K, V, D>>,
    out: &mut Vec<u8>,
)
    ensures
        final(out)@ == old(out)@ + records_bytes(atoms@),
{
    let mut i: usize = 0;
    proof {
        assert(atoms@.take(0) =~= Seq::<Atom<K, V, D>>::empty());
        assert(out@ =~= old(out)@ + records_bytes(atoms@.take(0)));
    }
    while i < atoms.len()
        invariant
            i <= atoms@.len(),
            out@ == old(out)@ + records_bytes(atoms@.take(i as int)),
        decreases atoms@.len() - i,
    {
        atoms[i].write_bytes(out);
        i = i + 1;
        proof {
            assert(atoms@.take(i as int).drop_last() =~= atoms@.take(i - 1));
            assert(out@ =~= old(out)@ + records_bytes(atoms@.take(i as int)));
        }
    }
    proof {
        assert(atoms@.take(atoms@.len() as int) =~= atoms@);
    }
}

/// The packed records of `atoms` are `width` bytes each, in order.
proof fn lemma_records_layout<K: Exchangable, V: Exchangable, D: Exchangable>(
    atoms: Seq<Atom<K, V, D>>,
)
    ensures
        records_bytes(atoms).len() == atoms.len() * Atom::<K, V, D>::spec_len(),
        forall|i: int|
            0 <= i < atoms.len() ==> records_bytes(atoms).subrange(
                i * Atom::<K, V, D>::spec_len(),
                i * Atom::<K, V, D>::spec_len() + Atom::<K, V, D>::spec_len(),
            ) == #[trigger] atoms[i].spec_bytes(),
    decreases atoms.len(),
{
    let w = Atom::<K, V, D>::spec_len() as int;
    if atoms.len() > 0 {
        let init = atoms.drop_last();
        lemma_records_layout(init);
        atoms.last().lemma_layout();
        let n = init.len() as int;
        assert((n + 1) * w == n * w + w) by (nonlinear_arith);
        let all = records_bytes(atoms);
        assert forall|i: int| 0 <= i < atoms.len() implies all.subrange(i * w, i * w + w)
            == #[trigger] atoms[i].spec_bytes() by {
            if i < n {
                assert(i * w + w <= n * w) by (nonlinear_arith)
                    requires
                        i < n,
                        w >= 0,
                ;
                assert(0 <= i * w) by (nonlinear_arith)
                    requires
                        0 <= i,
                        w >= 0,
                ;
                assert(all.subrange(i * w, i * w + w) =~= records_bytes(init).subrange(i * w, i * w + w));
                assert(init[i] == atoms[i]);
            } else {
                assert(all.subrange(i * w, i * w + w) =~= atoms.last().spec_bytes());
            }
        }
    }
}

/// Reading back a log written as a header and packed records gives back
/// exactly the records written, in order: whatever `decode_log` returns on
/// those bytes is the sequence that was encoded.
pub proof fn lemma_log_round_trip<K: Exchangable, V: Exchangable, D: Exchangable>(
    tag: Seq<u8>,
    atoms: Seq<Atom<K, V, D>>,
    decoded: Seq<Atom<K, V, D>>,
)
    requires
        tag.len() == 16,
        ({
            let bytes = header_bytes(Atom::<K, V, D>::spec_len() as u32, tag) + records_bytes(atoms);
            let w = Atom::<K, V, D>::spec_len();
            &&& HEADER_LEN + decoded.len() * w <= bytes.len()
            &&& bytes.len() < HEADER_LEN + decoded.len() * w + w
            &&& forall|i: int|
                0 <= i < decoded.len() ==> #[trigger] decoded[i].spec_bytes() == record_at(
                    bytes,
                    w,
                    i,
                )
        }),
    ensures
        decoded == atoms,
{
    let w = Atom::<K, V, D>::spec_len() as int;
    let head = header_bytes(Atom::<K, V, D>::spec_len() as u32, tag);
    let body = records_bytes(atoms);
    let bytes = head + body;
    lemma_auto_spec_u32_to_from_le_bytes();
    assert(spec_u32_to_le_bytes(Atom::<K, V, D>::spec_len() as u32).len() == 4);
    assert(head.len() == HEADER_LEN);
    lemma_records_layout(atoms);
    let n = atoms.len() as int;
    let m = decoded.len() as int;
    assert(w >= 1) by {
        assert(Atom::<K, V, D>::spec_len() >= 1);
    }
    assert(m == n) by (nonlinear_arith)
        requires
            m * w <= n * w,
            n * w < m * w + w,
            w >= 1,
            m >= 0,
            n >= 0,
    ;
    assert forall|i: int| 0 <= i < m implies decoded[i] == atoms[i] by {
        assert(0 <= i * w) by (nonlinear_arith)
            requires
                0 <= i,
                w >= 0,
        ;
        assert(i * w + w <= n * w) by (nonlinear_arith)
            requires
                i < n,
                w >= 0,
        ;
        assert(record_at(bytes, w as nat, i) =~= body.subrange(i * w, i * w + w));
        Atom::<K, V, D>::lemma_injective(decoded[i], atoms[i]);
    }
    assert(decoded =~= atoms);
}

/// Record `i` of a log, as it stands in `bytes` after the header.
pub open spec fn record_at(bytes: Seq<u8>, width: nat, i: int) -> Seq<u8> {
    bytes.subrange(HEADER_LEN + i * width, HEADER_LEN + i * width + width)
}

/// Reads a log of `Atom<K, V, D>` whose fingerprint should be `tag`. On
/// success, returns every complete record in file order and the offset
/// where the complete records end (a truncated last record is left out).
pub fn decode_log<K: Exchangable, V: Exchangable, D: Exchangable>(
    bytes: &[u8],
    tag: &[u8; 16],
) -> (r: Result<(Vec<Atom<K, V, D>>, usize), Error>)
    ensures
        bytes@.len() < HEADER_LEN <==> r == Err::<(Vec<Atom<K, V, D>>, usize), Error>(Error::LogIO),
        bytes@.len() >= HEADER_LEN && bytes@.subrange(0, HEADER_LEN as int) != header_bytes(
            Atom::<K, V, D>::spec_len() as u32,
            tag@,
        ) <==> r == Err::<(Vec<Atom<K, V, D>>, usize), Error>(Error::SchemaMismatch),
        r is Ok ==> {
            let (atoms, end) = r->Ok_0;
            let w = Atom::<K, V, D>::spec_len();
            &&& bytes@.subrange(0, HEADER_LEN as int) == header_bytes(w as u32, tag@)
            &&& end == HEADER_LEN + atoms@.len() * w
            &&& end <= bytes@.len() < end + w
            &&& forall|i: int|
                0 <= i < atoms@.len() ==> #[trigger] atoms@[i].spec_bytes() == record_at(
                    bytes@,
                    w,
                    i,
                )
        },
{
    let n = bytes.len();
    if n < HEADER_LEN {
        return Err(Error::LogIO);
    }
    let w = Atom::<K, V, D>::len();
    let expected = encode_header(w as u32, tag);
    let mut same = true;
    let mut i: usize = 0;
    while i < HEADER_LEN
        invariant
            i <= HEADER_LEN <= n,
            n == bytes@.len(),
            expected@.len() == HEADER_LEN,
            same <==> forall|j: int| 0 <= j < i ==> bytes@[j] == expected@[j],
        decreases HEADER_LEN - i,
    {
        if bytes[i] != expected[i] {
            same = false;
        }
        i = i + 1;
    }
    if !same {
        proof {
            let j = choose|j: int| 0 <= j < HEADER_LEN && bytes@[j] != expected@[j];
            assert(bytes@.subrange(0, HEADER_LEN as int)[j] != expected@[j]);
        }
        return Err(Error::SchemaMismatch);
    }
    proof {
        assert(bytes@.subrange(0, HEADER_LEN as int) =~= expected@);
    }
    let mut atoms: Vec<Atom<K, V, D>> = Vec::new();
    let mut pos: usize = HEADER_LEN;
    proof {
        assert(atoms@.len() == 0);
        assert(0 * w == 0) by (nonlinear_arith);
    }
    while w <= n - pos
        invariant
            HEADER_LEN <= pos <= n,
            n == bytes@.len(),
            w == Atom::<K, V, D>::spec_len(),
            1 <= w <= 49,
            pos == HEADER_LEN + atoms@.len() * w,
            forall|i: int|
                0 <= i < atoms@.len() ==> #[trigger] atoms@[i].spec_bytes() == record_at(
                    bytes@,
                    w as nat,
                    i,
                ),
        decreases n - pos,
    {
        let a = Atom::<K, V, D>::read_bytes(bytes, pos);
        proof {
            assert(pos + w == HEADER_LEN + (atoms@.len() + 1) * w) by (nonlinear_arith)
                requires
                    pos == HEADER_LEN + atoms@.len() * w,
            ;
        }
        atoms.push(a);
        pos = pos + w;
    }
    Ok((atoms, pos))
}

} // verus!
