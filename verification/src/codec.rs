//! The fixed-width binary encoding of a row.
//!
//! A row occupies `ROW_SIZE` bytes: the identifier as four bytes in
//! little-endian order, then the username bytes, then the email bytes.
//! Little-endian is chosen on purpose, so that a file written on one machine
//! reads the same on any other.

use crate::consts::{EMAIL_OFFSET, EMAIL_SIZE, ID_OFFSET, ID_SIZE, ROW_SIZE, USERNAME_OFFSET, USERNAME_SIZE};
use crate::parsing::{lemma_row_view_injective, Row, RowView};
use vstd::prelude::*;

verus! {

/// The four little-endian bytes of an identifier.
pub open spec fn id_bytes(id: u32) -> Seq<u8> {
    seq![
        (id % 256) as u8,
        ((id / 256) % 256) as u8,
        ((id / 65536) % 256) as u8,
        ((id / 16777216) % 256) as u8,
    ]
}

/// The identifier that four little-endian bytes stand for.
pub open spec fn id_of_bytes(b: Seq<u8>) -> u32
    recommends
        b.len() == ID_SIZE,
{
    (b[0] as int + 256 * (b[1] as int) + 65536 * (b[2] as int) + 16777216 * (b[3] as int)) as u32
}

/// The encoding of a row: identifier, username, email, with nothing between them.
pub open spec fn encode_spec(row: RowView) -> Seq<u8> {
    id_bytes(row.id) + row.username + row.email
}

/// The row that `ROW_SIZE` bytes stand for.
pub open spec fn decode_spec(bytes: Seq<u8>) -> RowView
    recommends
        bytes.len() == ROW_SIZE,
{
    RowView {
        id: id_of_bytes(bytes.subrange(ID_OFFSET as int, ID_OFFSET + ID_SIZE)),
        username: bytes.subrange(USERNAME_OFFSET as int, USERNAME_OFFSET + USERNAME_SIZE),
        email: bytes.subrange(EMAIL_OFFSET as int, EMAIL_OFFSET + EMAIL_SIZE),
    }
}

/// Reading back the bytes of an identifier gives the identifier.
pub proof fn lemma_id_round_trip(id: u32)
    ensures
        id_bytes(id).len() == ID_SIZE,
        id_of_bytes(id_bytes(id)) == id,
{
    let v = id as int;
    let b0 = v % 256;
    let b1 = (v / 256) % 256;
    let b2 = (v / 65536) % 256;
    let b3 = (v / 16777216) % 256;
    assert(v == 256 * (v / 256) + b0);
    assert(v / 256 == 256 * (v / 65536) + b1);
    assert(v / 65536 == 256 * (v / 16777216) + b2);
    assert(v / 16777216 == b3);
    assert(v == b0 + 256 * b1 + 65536 * b2 + 16777216 * b3);
}

/// Writing out the identifier read from four bytes gives the four bytes.
pub proof fn lemma_id_bytes_round_trip(b: Seq<u8>)
    requires
        b.len() == ID_SIZE,
    ensures
        id_bytes(id_of_bytes(b)) == b,
{
    let b0 = b[0] as int;
    let b1 = b[1] as int;
    let b2 = b[2] as int;
    let b3 = b[3] as int;
    let v = b0 + 256 * b1 + 65536 * b2 + 16777216 * b3;
    assert(0 <= v <= u32::MAX);
    assert(id_of_bytes(b) == v);
    assert(v == 256 * (b1 + 256 * b2 + 65536 * b3) + b0);
    assert(v % 256 == b0 && v / 256 == b1 + 256 * b2 + 65536 * b3);
    assert(v == 65536 * (b2 + 256 * b3) + (b0 + 256 * b1));
    assert(v / 65536 == b2 + 256 * b3);
    assert(v == 16777216 * b3 + (b0 + 256 * b1 + 65536 * b2));
    assert(v / 16777216 == b3);
    assert((v / 256) % 256 == b1);
    assert((v / 65536) % 256 == b2);
    assert((v / 16777216) % 256 == b3);
    assert(id_bytes(id_of_bytes(b)) =~= b);
}

/// Decoding an encoded row gives the row back, whenever its two fields have
/// their fixed sizes.
pub proof fn lemma_decode_encode(row: RowView)
    requires
        row.wf(),
    ensures
        encode_spec(row).len() == ROW_SIZE,
        decode_spec(encode_spec(row)) == row,
{
    let bytes = encode_spec(row);
    lemma_id_round_trip(row.id);
    assert(bytes.subrange(ID_OFFSET as int, ID_OFFSET + ID_SIZE) =~= id_bytes(row.id));
    assert(bytes.subrange(USERNAME_OFFSET as int, USERNAME_OFFSET + USERNAME_SIZE) =~= row.username);
    assert(bytes.subrange(EMAIL_OFFSET as int, EMAIL_OFFSET + EMAIL_SIZE) =~= row.email);
}

/// Round trip: a row decoded from the encoding of `row` is `row`, field by
/// field and byte by byte.
pub proof fn lemma_round_trip(row: Row, decoded: Row)
    requires
        decoded@ == decode_spec(encode_spec(row@)),
    ensures
        decoded == row,
{
    lemma_decode_encode(row@);
    lemma_row_view_injective(decoded, row);
}

/// Encoding a decoded row gives the bytes back: no two byte strings of
/// `ROW_SIZE` bytes stand for the same row.
pub proof fn lemma_encode_decode(bytes: Seq<u8>)
    requires
        bytes.len() == ROW_SIZE,
    ensures
        decode_spec(bytes).wf(),
        encode_spec(decode_spec(bytes)) == bytes,
{
    let head = bytes.subrange(ID_OFFSET as int, ID_OFFSET + ID_SIZE);
    lemma_id_bytes_round_trip(head);
    assert(encode_spec(decode_spec(bytes)) =~= bytes);
}

/// Encodes a row into its `ROW_SIZE` bytes.
pub fn encode(row: &Row) -> (out: [u8; ROW_SIZE])
    ensures
        out@ == encode_spec(row@),
{
    let mut out: [u8; ROW_SIZE] = [0u8; ROW_SIZE];
    let id: u32 = row.id;
    out[ID_OFFSET] = (id % 256) as u8;
    out[ID_OFFSET + 1] = ((id / 256) % 256) as u8;
    out[ID_OFFSET + 2] = ((id / 65536) % 256) as u8;
    out[ID_OFFSET + 3] = ((id / 16777216) % 256) as u8;
    let mut i: usize = 0;
    while i < USERNAME_SIZE
        invariant
            i <= USERNAME_SIZE,
            out@.subrange(0, ID_SIZE as int) == id_bytes(row.id),
            out@.subrange(USERNAME_OFFSET as int, USERNAME_OFFSET + i) == row.username@.subrange(0, i as int),
        decreases USERNAME_SIZE - i,
    {
        out[USERNAME_OFFSET + i] = row.username[i];
        i += 1;
    }
    let mut j: usize = 0;
    while j < EMAIL_SIZE
        invariant
            j <= EMAIL_SIZE,
            out@.subrange(0, ID_SIZE as int) == id_bytes(row.id),
            out@.subrange(USERNAME_OFFSET as int, USERNAME_OFFSET + USERNAME_SIZE) == row.username@,
            out@.subrange(EMAIL_OFFSET as int, EMAIL_OFFSET + j) == row.email@.subrange(0, j as int),
        decreases EMAIL_SIZE - j,
    {
        out[EMAIL_OFFSET + j] = row.email[j];
        j += 1;
    }
    assert(out@ =~= out@.subrange(0, ID_SIZE as int) + out@.subrange(
        USERNAME_OFFSET as int,
        USERNAME_OFFSET + USERNAME_SIZE,
    ) + out@.subrange(EMAIL_OFFSET as int, EMAIL_OFFSET + EMAIL_SIZE));
    out
}

/// Decodes the row stored in `buffer` at `offset`.
pub fn decode(buffer: &[u8], offset: usize) -> (row: Row)
    requires
        offset + ROW_SIZE <= buffer@.len(),
    ensures
        row@ == decode_spec(buffer@.subrange(offset as int, offset + ROW_SIZE)),
{
    let b0: u32 = buffer[offset + ID_OFFSET] as u32;
    let b1: u32 = buffer[offset + ID_OFFSET + 1] as u32;
    let b2: u32 = buffer[offset + ID_OFFSET + 2] as u32;
    let b3: u32 = buffer[offset + ID_OFFSET + 3] as u32;
    let id: u32 = b0 + 256 * b1 + 65536 * b2 + 16777216 * b3;
    let mut username: [u8; USERNAME_SIZE] = [0u8; USERNAME_SIZE];
    let mut i: usize = 0;
    while i < USERNAME_SIZE
        invariant
            i <= USERNAME_SIZE,
            offset + ROW_SIZE <= buffer@.len() <= usize::MAX,
            forall|k: int| 0 <= k < i ==> username@[k] == buffer@[offset + USERNAME_OFFSET + k],
        decreases USERNAME_SIZE - i,
    {
        username[i] = buffer[offset + USERNAME_OFFSET + i];
        i += 1;
    }
    let mut email: [u8; EMAIL_SIZE] = [0u8; EMAIL_SIZE];
    let mut j: usize = 0;
    while j < EMAIL_SIZE
        invariant
            j <= EMAIL_SIZE,
            offset + ROW_SIZE <= buffer@.len() <= usize::MAX,
            forall|k: int| 0 <= k < j ==> email@[k] == buffer@[offset + EMAIL_OFFSET + k],
        decreases EMAIL_SIZE - j,
    {
        email[j] = buffer[offset + EMAIL_OFFSET + j];
        j += 1;
    }
    let row = Row { id, username, email };
    proof {
        let bytes = buffer@.subrange(offset as int, offset + ROW_SIZE);
        assert(row@.username =~= decode_spec(bytes).username);
        assert(row@.email =~= decode_spec(bytes).email);
    }
    row
}

} // verus!
