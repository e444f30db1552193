//! Entry codec: one file record, encoded as
//! `[path_len: u32 le][path bytes][original_size: u64 le][compressed_size: u64 le][payload]`.

use vstd::bytes::{
    spec_u32_from_le_bytes, spec_u32_to_le_bytes, spec_u64_from_le_bytes, spec_u64_to_le_bytes,
    u32_from_le_bytes, u32_to_le_bytes, u64_from_le_bytes, u64_to_le_bytes,
};
use vstd::prelude::*;
use vstd::slice::{slice_subrange, slice_to_vec};

verus! {

/// One file record inside a container: a relative path kept as raw bytes,
/// the size of the uncompressed content, and the compressed payload.
/// The compressed size is not stored here; it is always the payload length.
#[derive(Debug)]
pub struct ArchiveEntry {
    pub path: Vec<u8>,
    pub original_size: u64,
    pub payload: Vec<u8>,
}

/// Mathematical model of one entry.
pub ghost struct EntryModel {
    pub path: Seq<u8>,
    pub original_size: u64,
    pub payload: Seq<u8>,
}

impl View for ArchiveEntry {
    type V = EntryModel;

    open spec fn view(&self) -> EntryModel {
        EntryModel { path: self.path@, original_size: self.original_size, payload: self.payload@ }
    }
}

/// The format can only represent entries whose path length fits the 4-byte
/// count and whose payload length fits the 8-byte count.
pub open spec fn entry_wf(e: EntryModel) -> bool {
    &&& e.path.len() <= u32::MAX
    &&& e.payload.len() <= u64::MAX
}

/// The encoded form of one entry: the four fields in their fixed order,
/// with no padding.
pub open spec fn spec_encode_entry(e: EntryModel) -> Seq<u8> {
    spec_u32_to_le_bytes(e.path.len() as u32) + e.path + spec_u64_to_le_bytes(e.original_size)
        + spec_u64_to_le_bytes(e.payload.len() as u64) + e.payload
}

/// Decodes one entry from the front of `b`. Returns the entry and the number
/// of bytes it occupies, or `None` when the declared lengths reach past the
/// end of `b` (a truncated or corrupted record). The empty buffer is the
/// clean end of a container and is decided by the caller, not here.
pub open spec fn spec_decode_entry(b: Seq<u8>) -> Option<(EntryModel, int)> {
    if b.len() < 4 {
        None
    } else {
        let plen = spec_u32_from_le_bytes(b.subrange(0, 4)) as int;
        if b.len() < 20 + plen {
            None
        } else {
            let path = b.subrange(4, 4 + plen);
            let original_size = spec_u64_from_le_bytes(b.subrange(4 + plen, 12 + plen));
            let clen = spec_u64_from_le_bytes(b.subrange(12 + plen, 20 + plen)) as int;
            if b.len() < 20 + plen + clen {
                None
            } else {
                Some(
                    (
                        EntryModel {
                            path,
                            original_size,
                            payload: b.subrange(20 + plen, 20 + plen + clen),
                        },
                        20 + plen + clen,
                    ),
                )
            }
        }
    }
}

/// A decoded entry is well formed: its path came from a 4-byte count and its
/// payload from an 8-byte count.
pub proof fn lemma_decoded_entry_wf(b: Seq<u8>)
    requires
        spec_decode_entry(b) is Some,
    ensures
        entry_wf(spec_decode_entry(b)->Some_0.0),
        20 <= spec_decode_entry(b)->Some_0.1 <= b.len(),
{
}

/// Decoding reads back exactly what encoding wrote, whatever follows it.
pub proof fn lemma_entry_round_trip(e: EntryModel, rest: Seq<u8>)
    requires
        entry_wf(e),
    ensures
        spec_decode_entry(spec_encode_entry(e) + rest) == Some(
            (e, spec_encode_entry(e).len() as int),
        ),
{
    vstd::bytes::lemma_auto_spec_u32_to_from_le_bytes();
    vstd::bytes::lemma_auto_spec_u64_to_from_le_bytes();
    let b = spec_encode_entry(e) + rest;
    let plen = e.path.len() as int;
    let clen = e.payload.len() as int;
    assert(b.subrange(0, 4) =~= spec_u32_to_le_bytes(e.path.len() as u32));
    assert(b.subrange(4, 4 + plen) =~= e.path);
    assert(b.subrange(4 + plen, 12 + plen) =~= spec_u64_to_le_bytes(e.original_size));
    assert(b.subrange(12 + plen, 20 + plen) =~= spec_u64_to_le_bytes(e.payload.len() as u64));
    assert(b.subrange(20 + plen, 20 + plen + clen) =~= e.payload);
    assert(spec_decode_entry(b)->Some_0.0 =~= e);
}

/// Appends the encoding of `e` to `out`.
pub fn encode_entry(e: &ArchiveEntry, out: &mut Vec<u8>)
    requires
        entry_wf(e@),
    ensures
        final(out)@ == old(out)@ + spec_encode_entry(e@),
{
    let mut plen_bytes = u32_to_le_bytes(e.path.len() as u32);
    out.append(&mut plen_bytes);
    let mut path_copy = slice_to_vec(e.path.as_slice());
    out.append(&mut path_copy);
    let mut orig_bytes = u64_to_le_bytes(e.original_size);
    out.append(&mut orig_bytes);
    let mut clen_bytes = u64_to_le_bytes(e.payload.len() as u64);
    out.append(&mut clen_bytes);
    let mut payload_copy = slice_to_vec(e.payload.as_slice());
    out.append(&mut payload_copy);
    assert(out@ =~= old(out)@ + spec_encode_entry(e@));
}

/// Outcome of decoding one record at a cursor position.
pub enum DecodeStep {
    /// A record was decoded; the cursor moves to the given position.
    Record(ArchiveEntry, usize),
    /// The cursor stood exactly at the end of the buffer: the container
    /// ended cleanly before this record.
    EndOfStream,
    /// A fixed-size or declared-length read reached past the end of the
    /// buffer: the container is truncated or corrupted.
    Corrupt,
}

/// Decodes the record that starts at `pos`.
pub fn decode_entry(b: &[u8], pos: usize) -> (r: DecodeStep)
    requires
        pos <= b@.len(),
    ensures
        pos == b@.len() ==> r is EndOfStream,
        pos < b@.len() ==> match spec_decode_entry(b@.skip(pos as int)) {
            Some((e, n)) => r matches DecodeStep::Record(entry, newpos) && entry@ == e && newpos
                == pos + n,
            None => r is Corrupt,
        },
{
    let ghost tail = b@.skip(pos as int);
    if pos == b.len() {
        return DecodeStep::EndOfStream;
    }
    let rem0 = b.len() - pos;
    if rem0 < 4 {
        return DecodeStep::Corrupt;
    }
    let plen_u32 = u32_from_le_bytes(slice_subrange(b, pos, pos + 4));
    assert(b@.subrange(pos as int, pos as int + 4) =~= tail.subrange(0, 4));
    let plen: usize = plen_u32 as usize;
    let rem1 = rem0 - 4;
    if rem1 < 16 || rem1 - 16 < plen {
        assert(tail.len() < 20 + plen);
        return DecodeStep::Corrupt;
    }
    let path_start = pos + 4;
    let path_end = path_start + plen;
    let path = slice_to_vec(slice_subrange(b, path_start, path_end));
    assert(b@.subrange(path_start as int, path_end as int) =~= tail.subrange(4, 4 + plen as int));
    let original_size = u64_from_le_bytes(slice_subrange(b, path_end, path_end + 8));
    assert(b@.subrange(path_end as int, path_end as int + 8) =~= tail.subrange(
        4 + plen as int,
        12 + plen as int,
    ));
    let clen_u64 = u64_from_le_bytes(slice_subrange(b, path_end + 8, path_end + 16));
    assert(b@.subrange(path_end as int + 8, path_end as int + 16) =~= tail.subrange(
        12 + plen as int,
        20 + plen as int,
    ));
    let rem2 = rem1 - 16 - plen;
    if clen_u64 > rem2 as u64 {
        assert(tail.len() < 20 + plen + clen_u64);
        return DecodeStep::Corrupt;
    }
    let clen: usize = clen_u64 as usize;
    let payload_start = path_end + 16;
    let payload_end = payload_start + clen;
    let payload = slice_to_vec(slice_subrange(b, payload_start, payload_end));
    assert(b@.subrange(payload_start as int, payload_end as int) =~= tail.subrange(
        20 + plen as int,
        20 + plen as int + clen as int,
    ));
    DecodeStep::Record(ArchiveEntry { path, original_size, payload }, payload_end)
}

} // verus!
