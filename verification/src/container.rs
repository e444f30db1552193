//! Container stream: an ordered sequence of entries concatenated with no
//! count prefix and no terminator; the end of the byte buffer is the end of
//! the container.

use crate::entry::{
    decode_entry, encode_entry, entry_wf, spec_decode_entry, spec_encode_entry, ArchiveEntry,
    DecodeStep, EntryModel,
};
use vstd::prelude::*;

verus! {

/// Models of a sequence of entries.
pub open spec fn entries_model(v: Seq<ArchiveEntry>) -> Seq<EntryModel> {
    v.map_values(|e: ArchiveEntry| e@)
}

pub open spec fn entries_wf(es: Seq<EntryModel>) -> bool {
    forall|i: int| 0 <= i < es.len() ==> entry_wf(#[trigger] es[i])
}

/// The encoded container: the entries' encodings, concatenated in order.
pub open spec fn spec_encode_container(es: Seq<EntryModel>) -> Seq<u8>
    decreases es.len(),
{
    if es.len() == 0 {
        Seq::empty()
    } else {
        spec_encode_entry(es[0]) + spec_encode_container(es.skip(1))
    }
}

/// Decodes a whole buffer into entries. `None` means some record was
/// truncated or corrupted; the empty buffer is the empty container.
pub open spec fn spec_decode_container(b: Seq<u8>) -> Option<Seq<EntryModel>>
    decreases b.len(),
{
    if b.len() == 0 {
        Some(Seq::empty())
    } else {
        match spec_decode_entry(b) {
            Some((e, n)) => if 0 < n <= b.len() {
                match spec_decode_container(b.skip(n)) {
                    Some(rest) => Some(seq![e] + rest),
                    None => None,
                }
            } else {
                None
            },
            None => None,
        }
    }
}

/// Every entry of a decodable container is well formed.
pub proof fn lemma_decoded_container_wf(b: Seq<u8>)
    requires
        spec_decode_container(b) is Some,
    ensures
        entries_wf(spec_decode_container(b)->Some_0),
    decreases b.len(),
{
    if b.len() != 0 {
        let (e, n) = spec_decode_entry(b)->Some_0;
        crate::entry::lemma_decoded_entry_wf(b);
        lemma_decoded_container_wf(b.skip(n));
    }
}

/// Appending one encoded entry to an encoded container encodes the pushed
/// sequence.
pub proof fn lemma_encode_container_push(es: Seq<EntryModel>, e: EntryModel)
    ensures
        spec_encode_container(es.push(e)) == spec_encode_container(es) + spec_encode_entry(e),
    decreases es.len(),
{
    if es.len() == 0 {
        assert(es.push(e)[0] == e);
        assert(es.push(e).skip(1) =~= Seq::<EntryModel>::empty());
        assert(spec_encode_container(Seq::<EntryModel>::empty()) == Seq::<u8>::empty());
        assert(spec_encode_container(es.push(e)) == spec_encode_entry(e)
            + spec_encode_container(Seq::<EntryModel>::empty()));
        assert(spec_encode_entry(e) + Seq::<u8>::empty() =~= spec_encode_entry(e));
        assert(Seq::<u8>::empty() + spec_encode_entry(e) =~= spec_encode_entry(e));
    } else {
        assert(es.push(e)[0] == es[0]);
        assert(es.push(e).skip(1) =~= es.skip(1).push(e));
        lemma_encode_container_push(es.skip(1), e);
        assert(spec_encode_container(es.push(e)) == spec_encode_entry(es[0])
            + spec_encode_container(es.skip(1).push(e)));
        assert(spec_encode_entry(es[0]) + (spec_encode_container(es.skip(1)) + spec_encode_entry(e))
            =~= (spec_encode_entry(es[0]) + spec_encode_container(es.skip(1))) + spec_encode_entry(
            e,
        ));
    }
}

/// Decoding reads back exactly the sequence of entries that encoding wrote.
pub proof fn lemma_container_round_trip(es: Seq<EntryModel>)
    requires
        entries_wf(es),
    ensures
        spec_decode_container(spec_encode_container(es)) == Some(es),
    decreases es.len(),
{
    if es.len() == 0 {
        assert(spec_encode_container(es).len() == 0);
        assert(spec_decode_container(spec_encode_container(es)) == Some(es));
    } else {
        let head = es[0];
        let rest = spec_encode_container(es.skip(1));
        crate::entry::lemma_entry_round_trip(head, rest);
        let b = spec_encode_container(es);
        assert(b == spec_encode_entry(head) + rest);
        let n = spec_encode_entry(head).len() as int;
        assert(b.len() >= n);
        assert(b.skip(n) =~= rest);
        lemma_container_round_trip(es.skip(1));
        assert(seq![head] + es.skip(1) =~= es);
    }
}

/// Encodes the entries in order into one contiguous buffer.
pub fn encode_container(entries: &Vec<ArchiveEntry>) -> (r: Vec<u8>)
    requires
        entries_wf(entries_model(entries@)),
    ensures
        r@ == spec_encode_container(entries_model(entries@)),
{
    let mut out: Vec<u8> = Vec::new();
    let mut i: usize = 0;
    assert(entries_model(entries@.take(0)) =~= Seq::empty());
    while i < entries.len()
        invariant
            i <= entries.len(),
            entries_wf(entries_model(entries@)),
            out@ == spec_encode_container(entries_model(entries@.take(i as int))),
        decreases entries.len() - i,
    {
        assert(entries_model(entries@)[i as int] == entries@[i as int]@);
        encode_entry(&entries[i], &mut out);
        proof {
            assert(entries_model(entries@.take(i as int)).push(entries@[i as int]@)
                =~= entries_model(entries@.take(i as int + 1)));
            lemma_encode_container_push(
                entries_model(entries@.take(i as int)),
                entries@[i as int]@,
            );
        }
        i = i + 1;
    }
    assert(entries@.take(entries@.len() as int) =~= entries@);
    out
}

/// A scan of the container failed: some record was cut short, or a length
/// field described more bytes than remain in the buffer.
#[derive(Debug)]
pub enum FormatError {
    Truncated,
}

/// Decodes a whole container buffer. Iteration stops at the clean end of the
/// buffer; any truncated or corrupted record fails the whole scan.
pub fn decode_container(b: &[u8]) -> (r: Result<Vec<ArchiveEntry>, FormatError>)
    ensures
        match spec_decode_container(b@) {
            Some(es) => r matches Ok(v) && entries_model(v@) == es,
            None => r matches Err(FormatError::Truncated),
        },
{
    let mut out: Vec<ArchiveEntry> = Vec::new();
    let mut pos: usize = 0;
    proof {
        assert(entries_model(out@) =~= Seq::<EntryModel>::empty());
        assert(b@.skip(0) =~= b@);
        match spec_decode_container(b@) {
            Some(rest) => {
                assert(entries_model(out@) + rest =~= rest);
            },
            None => {},
        }
    }
    loop
        invariant
            pos <= b@.len(),
            match spec_decode_container(b@.skip(pos as int)) {
                Some(rest) => spec_decode_container(b@) == Some(entries_model(out@) + rest),
                None => spec_decode_container(b@) is None,
            },
        decreases b@.len() - pos,
    {
        let ghost tail = b@.skip(pos as int);
        match decode_entry(b, pos) {
            DecodeStep::EndOfStream => {
                assert(tail.len() == 0);
                assert(entries_model(out@) + Seq::<EntryModel>::empty() =~= entries_model(out@));
                return Ok(out);
            },
            DecodeStep::Corrupt => {
                return Err(FormatError::Truncated);
            },
            DecodeStep::Record(entry, newpos) => {
                let ghost n = newpos - pos;
                let ghost prev = entries_model(out@);
                proof {
                    crate::entry::lemma_decoded_entry_wf(tail);
                    assert(tail.skip(n) =~= b@.skip(newpos as int));
                }
                let ghost entry_model = entry@;
                out.push(entry);
                proof {
                    assert(entries_model(out@) =~= prev.push(entry_model));
                    match spec_decode_container(b@.skip(newpos as int)) {
                        Some(rest) => {
                            assert(spec_decode_container(tail) == Some(seq![entry_model] + rest));
                            assert(prev + (seq![entry_model] + rest) =~= prev.push(entry_model)
                                + rest);
                        },
                        None => {},
                    }
                }
                pos = newpos;
            },
        }
    }
}

} // verus!
