//! Verification engine: walks the decodable entries of a container, digests
//! each one — the stored compressed bytes for a shallow check, the recovered
//! raw bytes for a deep check — and reports per-entry status plus one flag
//! that says whether any corruption was observed.

use crate::compressor::{decompress_bytes, zstd_decompress};
use crate::container::{decode_container, entries_model, spec_decode_container, FormatError};
use crate::entry::EntryModel;
use sha2::Digest;
use vstd::prelude::*;
use vstd::slice::slice_to_vec;

verus! {

/// The 32-byte digest of a byte sequence.
pub uninterp spec fn sha256_digest(data: Seq<u8>) -> Seq<u8>;

/// Relies on sha2::Sha256: the 32-byte digest is a function of the input
/// bytes alone.
#[verifier::external_body]
pub fn sha256_bytes(data: &[u8]) -> (r: Vec<u8>)
    ensures
        r@ == sha256_digest(data@),
        r@.len() == 32,
{
    sha2::Sha256::digest(data).to_vec()
}

/// Per-entry verification outcome.
#[derive(Clone, Copy, Debug, PartialEq, Eq, Structural)]
pub enum EntryStatus {
    /// The digested bytes were obtained.
    Intact,
    /// Deep verification could not decompress the payload: it is not one
    /// valid compressed frame.
    Corrupted,
}

/// What verification found for one entry. The digest is over the stored
/// compressed bytes for a shallow check and over the recovered raw bytes for
/// a deep one; it is empty for a corrupted entry.
pub struct EntryReport {
    pub path: Vec<u8>,
    pub status: EntryStatus,
    pub digest: Vec<u8>,
}

/// The whole scan's outcome. The operation fails exactly when
/// `any_corrupted` holds.
pub struct VerifyReport {
    pub entries: Vec<EntryReport>,
    pub any_corrupted: bool,
}

/// What one entry's report must say.
pub open spec fn entry_report_ok(rep: EntryReport, e: EntryModel, deep: bool) -> bool {
    &&& rep.path@ == e.path
    &&& if deep {
        match zstd_decompress(e.payload) {
            Some(raw) => rep.status == EntryStatus::Intact && rep.digest@ == sha256_digest(raw),
            None => rep.status == EntryStatus::Corrupted && rep.digest@.len() == 0,
        }
    } else {
        rep.status == EntryStatus::Intact && rep.digest@ == sha256_digest(e.payload)
    }
}

/// Verifies every decodable entry of a container. A truncated or corrupted
/// record fails the whole scan; with `deep`, a payload that does not
/// decompress marks that entry `Corrupted` and the scan continues.
pub fn verify_container(b: &[u8], deep: bool) -> (r: Result<VerifyReport, FormatError>)
    ensures
        match spec_decode_container(b@) {
            Some(es) => r matches Ok(rep) && rep.entries@.len() == es.len() && (forall|i: int|
                0 <= i < es.len() ==> entry_report_ok(#[trigger] rep.entries@[i], es[i], deep))
                && (rep.any_corrupted <==> exists|i: int|
                0 <= i < es.len() && (#[trigger] rep.entries@[i]).status
                    == EntryStatus::Corrupted),
            None => r matches Err(FormatError::Truncated),
        },
{
    let entries = match decode_container(b) {
        Ok(v) => v,
        Err(e) => {
            return Err(e);
        },
    };
    let ghost es = spec_decode_container(b@)->Some_0;
    let mut out: Vec<EntryReport> = Vec::new();
    let mut any_corrupted = false;
    let mut i: usize = 0;
    while i < entries.len()
        invariant
            i <= entries@.len(),
            entries_model(entries@) == es,
            out@.len() == i,
            forall|k: int|
                0 <= k < i ==> entry_report_ok(#[trigger] out@[k], es[k], deep),
            any_corrupted <==> exists|k: int|
                0 <= k < i && (#[trigger] out@[k]).status == EntryStatus::Corrupted,
        decreases entries@.len() - i,
    {
        assert(entries@[i as int]@ == es[i as int]);
        let e = &entries[i];
        let path = slice_to_vec(e.path.as_slice());
        let rep = if deep {
            match decompress_bytes(e.payload.as_slice()) {
                Some(raw) => {
                    let digest = sha256_bytes(raw.as_slice());
                    EntryReport { path, status: EntryStatus::Intact, digest }
                },
                None => {
                    EntryReport { path, status: EntryStatus::Corrupted, digest: Vec::new() }
                },
            }
        } else {
            let digest = sha256_bytes(e.payload.as_slice());
            EntryReport { path, status: EntryStatus::Intact, digest }
        };
        let ghost was_corrupted = any_corrupted;
        let ghost prev = out@;
        if matches!(rep.status, EntryStatus::Corrupted) {
            any_corrupted = true;
        }
        let ghost rep_status = rep.status;
        out.push(rep);
        proof {
            assert(forall|k: int| 0 <= k < i ==> out@[k] == prev[k]);
            assert(out@[i as int].status == rep_status);
            if any_corrupted {
                if was_corrupted {
                    let k = choose|k: int|
                        0 <= k < i && (#[trigger] prev[k]).status == EntryStatus::Corrupted;
                    assert(out@[k].status == EntryStatus::Corrupted);
                }
            }
        }
        i = i + 1;
    }
    Ok(VerifyReport { entries: out, any_corrupted })
}

} // verus!
