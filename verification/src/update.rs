//! Update engine: loads a container into a path-keyed mapping, applies one
//! mutation — an upsert of freshly compressed files, or a removal — and
//! re-serializes the whole mapping. With a password, the archive is opened
//! first and re-sealed afterwards with a fresh salt and nonce.

use crate::archive::{paths_unique, seq_to_map, ArchiveMap};
use crate::compressor::compress_bytes;
use crate::container::{
    decode_container, encode_container, entries_model, entries_wf, lemma_container_round_trip,
    lemma_decoded_container_wf, spec_decode_container, spec_encode_container, FormatError,
};
use crate::crypto::{
    envelope_opens_to, open_envelope, password_ok, seal_envelope, CryptoError, MAX_PLAINTEXT_LEN,
};
use crate::entry::{entry_wf, ArchiveEntry, EntryModel};
use crate::ops::{
    compress_files, compressed_entry, compressed_models, files_model, files_wf,
    FileInput, FileModel,
};
use vstd::prelude::*;
use vstd::slice::slice_to_vec;

verus! {

/// The one mutation an update applies.
pub enum UpdateOp {
    /// Delete the mapping entry for this path if present; absence is not an
    /// error.
    Remove(Vec<u8>),
    /// Compress each given file and insert it, overwriting whatever its path
    /// previously mapped to. Add and replace are both this operation.
    Upsert(Vec<FileInput>),
}

/// Mathematical model of the mutation.
pub ghost enum UpdateOpModel {
    Remove(Seq<u8>),
    Upsert(Seq<FileModel>),
}

impl View for UpdateOp {
    type V = UpdateOpModel;

    open spec fn view(&self) -> UpdateOpModel {
        match self {
            UpdateOp::Remove(p) => UpdateOpModel::Remove(p@),
            UpdateOp::Upsert(fs) => UpdateOpModel::Upsert(files_model(fs@)),
        }
    }
}

pub open spec fn op_wf(op: UpdateOpModel) -> bool {
    match op {
        UpdateOpModel::Remove(p) => true,
        UpdateOpModel::Upsert(fs) => files_wf(fs),
    }
}

/// Upserting files in order: each file's freshly compressed entry overwrites
/// its path.
pub open spec fn spec_upsert_all(
    m: Map<Seq<u8>, EntryModel>,
    fs: Seq<FileModel>,
) -> Map<Seq<u8>, EntryModel>
    decreases fs.len(),
{
    if fs.len() == 0 {
        m
    } else {
        spec_upsert_all(m, fs.drop_last()).insert(fs.last().path, compressed_entry(fs.last()))
    }
}

/// An upserted file that no later upsert overrides is exactly what its path
/// maps to afterwards, however many prior entries named that path. Together
/// with the unique paths of a re-serialized container, a listing then shows
/// exactly one entry for it.
pub proof fn lemma_upsert_all_last_wins(m: Map<Seq<u8>, EntryModel>, fs: Seq<FileModel>, i: int)
    requires
        0 <= i < fs.len(),
        forall|j: int| i < j < fs.len() ==> fs[j].path != fs[i].path,
    ensures
        spec_upsert_all(m, fs).contains_key(fs[i].path),
        spec_upsert_all(m, fs)[fs[i].path] == compressed_entry(fs[i]),
    decreases fs.len(),
{
    if i == fs.len() - 1 {
    } else {
        assert(fs.drop_last()[i] == fs[i]);
        lemma_upsert_all_last_wins(m, fs.drop_last(), i);
        assert(fs.last().path != fs[i].path);
    }
}

/// What one mutation does to the mapping.
pub open spec fn spec_apply_op(
    m: Map<Seq<u8>, EntryModel>,
    op: UpdateOpModel,
) -> Map<Seq<u8>, EntryModel> {
    match op {
        UpdateOpModel::Remove(p) => m.remove(p),
        UpdateOpModel::Upsert(fs) => spec_upsert_all(m, fs),
    }
}

/// Applies the mutation to a loaded mapping.
fn apply_op(m: &mut ArchiveMap, op: &UpdateOp)
    requires
        old(m).wf(),
        op_wf(op@),
    ensures
        final(m).wf(),
        final(m).as_map() == spec_apply_op(old(m).as_map(), op@),
{
    match op {
        UpdateOp::Remove(p) => {
            m.remove(p.as_slice());
        },
        UpdateOp::Upsert(files) => {
            let ghost fs = files_model(files@);
            let ghost m0 = m.as_map();
            let mut i: usize = 0;
            proof {
                assert(op@ == UpdateOpModel::Upsert(fs));
                assert(files_wf(fs));
                assert(fs.take(0) =~= Seq::<FileModel>::empty());
            }
            while i < files.len()
                invariant
                    i <= files@.len(),
                    fs == files_model(files@),
                    files_wf(fs),
                    m.wf(),
                    m.as_map() == spec_upsert_all(m0, fs.take(i as int)),
                decreases files@.len() - i,
            {
                assert(fs[i as int] == files@[i as int]@);
                let payload = compress_bytes(files[i].data.as_slice());
                let payload_len = payload.len();
                let path = slice_to_vec(files[i].path.as_slice());
                let original_size = files[i].data.len() as u64;
                let e = ArchiveEntry { path, original_size, payload };
                proof {
                    assert(e@ == compressed_entry(fs[i as int]));
                    assert(e@.payload.len() == payload_len);
                    assert(entry_wf(e@));
                }
                m.upsert(e);
                proof {
                    assert(fs.take(i as int + 1).drop_last() =~= fs.take(i as int));
                    assert(fs.take(i as int + 1).last() == fs[i as int]);
                }
                i = i + 1;
            }
            proof {
                assert(fs.take(fs.len() as int) =~= fs);
            }
        },
    }
}

/// Decodes a container, applies one mutation to its induced mapping, and
/// re-serializes the whole mapping. The result decodes to entries with
/// unique paths whose induced mapping is exactly the mutated one.
pub fn update_container(container: &[u8], op: &UpdateOp) -> (r: Result<Vec<u8>, FormatError>)
    requires
        op_wf(op@),
    ensures
        match spec_decode_container(container@) {
            Some(es) => r matches Ok(out) && {
                let decoded = spec_decode_container(out@);
                &&& decoded is Some
                &&& paths_unique(decoded->Some_0)
                &&& seq_to_map(decoded->Some_0) == spec_apply_op(seq_to_map(es), op@)
                &&& out@ == spec_encode_container(decoded->Some_0)
            },
            None => r matches Err(FormatError::Truncated),
        },
{
    let entries = match decode_container(container) {
        Ok(v) => v,
        Err(e) => {
            return Err(e);
        },
    };
    proof {
        lemma_decoded_container_wf(container@);
    }
    let mut map = ArchiveMap::from_entries(entries);
    apply_op(&mut map, op);
    let out_entries = map.into_entries();
    proof {
        lemma_container_round_trip(entries_model(out_entries@));
    }
    Ok(encode_container(&out_entries))
}

/// Failure of a whole-archive operation.
#[derive(Debug)]
pub enum ArchiveError {
    /// The container (after decryption, if any) had a truncated or corrupted
    /// record.
    Format(FormatError),
    /// The envelope could not be opened: too short, a wrong password, or
    /// corrupted ciphertext.
    Crypto(CryptoError),
    /// The rebuilt container is longer than the cipher accepts in one call.
    TooLarge,
}

/// The password model of an optional password argument.
pub open spec fn password_model(password: Option<&str>) -> Option<Seq<char>> {
    match password {
        Some(p) => Some(p@),
        None => None,
    }
}

/// A supplied password is one the key-derivation function accepts.
pub open spec fn password_opt_ok(password: Option<Seq<char>>) -> bool {
    match password {
        None => true,
        Some(pw) => password_ok(pw),
    }
}

/// The container bytes an archive holds under an optional password: the
/// archive bytes themselves without one, or what the envelope decrypts to.
pub open spec fn archive_opens_to(archive: Seq<u8>, password: Option<Seq<char>>) -> Option<
    Seq<u8>,
> {
    match password {
        None => Some(archive),
        Some(pw) => envelope_opens_to(archive, pw),
    }
}

/// Recovers the container bytes of an archive: decrypts the envelope when a
/// password is supplied, or hands the bytes back as they are.
pub fn read_container(archive: &[u8], password: Option<&str>) -> (r: Result<Vec<u8>, CryptoError>)
    requires
        password_opt_ok(password_model(password)),
    ensures
        match archive_opens_to(archive@, password_model(password)) {
            Some(c) => r matches Ok(v) && v@ == c,
            None => r is Err,
        },
{
    match password {
        None => Ok(slice_to_vec(archive)),
        Some(pw) => open_envelope(archive, pw),
    }
}

/// Packs the given files into an archive: builds the container in the given
/// order, and seals it under the password when one is supplied. Fails only
/// when a password is supplied and the container is longer than the cipher
/// accepts in one call.
pub fn compress_archive(files: &Vec<FileInput>, password: Option<&str>) -> (r: Result<
    Vec<u8>,
    ArchiveError,
>)
    requires
        files_wf(files_model(files@)),
        password_opt_ok(password_model(password)),
    ensures
        ({
            let container = spec_encode_container(compressed_models(files_model(files@)));
            &&& r is Err <==> (password is Some && container.len() > MAX_PLAINTEXT_LEN)
            &&& (r matches Err(e) ==> e is TooLarge)
            &&& (r matches Ok(out) ==> archive_opens_to(out@, password_model(password)) == Some(
                container,
            ))
            &&& spec_decode_container(container) == Some(
                compressed_models(files_model(files@)),
            )
            &&& forall|i: int|
                0 <= i < files@.len() ==> crate::compressor::zstd_decompress(
                    #[trigger] compressed_models(files_model(files@))[i].payload,
                ) == Some(files_model(files@)[i].data)
        }),
{
    let container = compress_files(files);
    match password {
        None => Ok(container),
        Some(pw) => {
            match seal_envelope(container.as_slice(), pw) {
                Some(env) => Ok(env),
                None => Err(ArchiveError::TooLarge),
            }
        },
    }
}

/// One full update cycle: open the envelope when a password is supplied,
/// decode, mutate, re-serialize, and re-seal with a fresh salt and nonce.
/// Without a password the result is the new container itself; with one, the
/// result is an envelope that decrypts to the new container.
pub fn update_archive(archive: &[u8], op: &UpdateOp, password: Option<&str>) -> (r: Result<
    Vec<u8>,
    ArchiveError,
>)
    requires
        op_wf(op@),
        password_opt_ok(password_model(password)),
    ensures
        match archive_opens_to(archive@, password_model(password)) {
            None => r matches Err(e) && e is Crypto,
            Some(c) => match spec_decode_container(c) {
                None => r matches Err(e) && (e matches ArchiveError::Format(
                    FormatError::Truncated,
                )),
                Some(es) => match r {
                    Ok(out) => exists|c2: Seq<u8>|
                        {
                            &&& archive_opens_to(out@, password_model(password)) == Some(c2)
                            &&& #[trigger] spec_decode_container(c2) is Some
                            &&& paths_unique(spec_decode_container(c2)->Some_0)
                            &&& seq_to_map(spec_decode_container(c2)->Some_0) == spec_apply_op(
                                seq_to_map(es),
                                op@,
                            )
                        },
                    Err(e) => e is TooLarge && password is Some && (exists|es2: Seq<EntryModel>|
                        #![auto]
                        {
                            &&& paths_unique(es2)
                            &&& seq_to_map(es2) == spec_apply_op(seq_to_map(es), op@)
                            &&& spec_encode_container(es2).len() > MAX_PLAINTEXT_LEN
                        }),
                },
            },
        },
{
    let container = match read_container(archive, password) {
        Ok(v) => v,
        Err(e) => {
            return Err(ArchiveError::Crypto(e));
        },
    };
    let new_container = match update_container(container.as_slice(), op) {
        Ok(v) => v,
        Err(e) => {
            return Err(ArchiveError::Format(e));
        },
    };
    match password {
        None => {
            proof {
                let c2 = new_container@;
                assert(archive_opens_to(new_container@, password_model(password)) == Some(c2));
            }
            Ok(new_container)
        },
        Some(pw) => {
            match seal_envelope(new_container.as_slice(), pw) {
                Some(env) => {
                    proof {
                        let c2 = new_container@;
                        assert(archive_opens_to(env@, password_model(password)) == Some(c2));
                    }
                    Ok(env)
                },
                None => {
                    proof {
                        let es2 = spec_decode_container(new_container@)->Some_0;
                        assert(new_container@ == spec_encode_container(es2));
                        assert(spec_encode_container(es2).len() > MAX_PLAINTEXT_LEN);
                    }
                    Err(ArchiveError::TooLarge)
                },
            }
        },
    }
}

} // verus!
