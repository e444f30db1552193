//! Whole-archive operations on container bytes: building a container from
//! raw files, extracting files back out, and listing what a container holds.

use crate::compressor::{compress_bytes, decompress_bytes, zstd_compress, zstd_decompress};
use crate::container::{
    decode_container, encode_container, entries_model, entries_wf, lemma_container_round_trip,
    spec_decode_container, spec_encode_container, FormatError,
};
use crate::display::bytes_to_string;
use crate::entry::{entry_wf, ArchiveEntry, EntryModel};
use vstd::prelude::*;
use vstd::slice::slice_to_vec;
use vstd::utf8::{encode_utf8, valid_utf8};

verus! {

/// One file to pack: its path relative to the compression root, and its raw
/// content.
pub struct FileInput {
    pub path: Vec<u8>,
    pub data: Vec<u8>,
}

/// Mathematical model of one input file.
pub ghost struct FileModel {
    pub path: Seq<u8>,
    pub data: Seq<u8>,
}

impl View for FileInput {
    type V = FileModel;

    open spec fn view(&self) -> FileModel {
        FileModel { path: self.path@, data: self.data@ }
    }
}

pub open spec fn files_model(v: Seq<FileInput>) -> Seq<FileModel> {
    v.map_values(|f: FileInput| f@)
}

/// A packable file: a non-empty path whose length fits the 4-byte count.
pub open spec fn file_wf(f: FileModel) -> bool {
    &&& 1 <= f.path.len() <= u32::MAX
    &&& f.data.len() <= u64::MAX
}

pub open spec fn files_wf(fs: Seq<FileModel>) -> bool {
    forall|i: int| 0 <= i < fs.len() ==> file_wf(#[trigger] fs[i])
}

/// The entry that packing one file produces: the compressed frame as the
/// payload, and the raw length as the recorded original size.
pub open spec fn compressed_entry(f: FileModel) -> EntryModel {
    EntryModel {
        path: f.path,
        original_size: f.data.len() as u64,
        payload: zstd_compress(f.data),
    }
}

pub open spec fn compressed_models(fs: Seq<FileModel>) -> Seq<EntryModel> {
    fs.map_values(|f: FileModel| compressed_entry(f))
}

/// Builds a container from the given files, in the given order: each file is
/// compressed independently and its record appended. The result decodes back
/// to exactly those records, and each record's payload decompresses back to
/// the file's raw content.
pub fn compress_files(files: &Vec<FileInput>) -> (r: Vec<u8>)
    requires
        files_wf(files_model(files@)),
    ensures
        r@ == spec_encode_container(compressed_models(files_model(files@))),
        spec_decode_container(r@) == Some(compressed_models(files_model(files@))),
        forall|i: int|
            0 <= i < files@.len() ==> zstd_decompress(
                #[trigger] compressed_models(files_model(files@))[i].payload,
            ) == Some(files_model(files@)[i].data),
{
    let ghost fs = files_model(files@);
    let mut entries: Vec<ArchiveEntry> = Vec::new();
    let mut i: usize = 0;
    proof {
        assert(entries_model(entries@) =~= compressed_models(fs.take(0)));
    }
    while i < files.len()
        invariant
            i <= files@.len(),
            fs == files_model(files@),
            files_wf(fs),
            entries_model(entries@) == compressed_models(fs.take(i as int)),
            entries_wf(entries_model(entries@)),
            forall|k: int|
                0 <= k < i ==> zstd_decompress(#[trigger] compressed_models(fs)[k].payload)
                    == Some(fs[k].data),
        decreases files@.len() - i,
    {
        assert(fs[i as int] == files@[i as int]@);
        let payload = compress_bytes(files[i].data.as_slice());
        let payload_len = payload.len();
        let path = slice_to_vec(files[i].path.as_slice());
        let original_size = files[i].data.len() as u64;
        let e = ArchiveEntry { path, original_size, payload };
        proof {
            assert(e@ == compressed_entry(fs[i as int]));
            assert(e@.payload.len() == payload_len);
            assert(entry_wf(e@));
        }
        entries.push(e);
        proof {
            assert(entries_model(entries@) =~= compressed_models(fs.take(i as int)).push(e@));
            assert(compressed_models(fs.take(i as int + 1)) =~= compressed_models(
                fs.take(i as int),
            ).push(compressed_entry(fs[i as int])));
            assert(compressed_models(fs)[i as int] == compressed_entry(fs[i as int]));
        }
        i = i + 1;
    }
    proof {
        assert(fs.take(fs.len() as int) =~= fs);
        lemma_container_round_trip(entries_model(entries@));
    }
    encode_container(&entries)
}

/// One file recovered from a container: its stored path, and its raw content
/// unless its payload was not a valid compressed frame.
pub struct ExtractedFile {
    pub path: Vec<u8>,
    pub content: Option<Vec<u8>>,
}

/// Decodes a container and decompresses every record. A truncated or
/// corrupted record fails the whole scan; a payload that is not a valid
/// compressed frame marks only that file and the rest are still attempted.
pub fn extract_container(b: &[u8]) -> (r: Result<Vec<ExtractedFile>, FormatError>)
    ensures
        match spec_decode_container(b@) {
            Some(es) => r matches Ok(v) && v@.len() == es.len() && (forall|i: int|
                0 <= i < es.len() ==> (#[trigger] v@[i]).path@ == es[i].path && (match
                    zstd_decompress(es[i].payload) {
                    Some(raw) => v@[i].content matches Some(c) && c@ == raw,
                    None => v@[i].content is None,
                })),
            None => r matches Err(FormatError::Truncated),
        },
{
    let entries = match decode_container(b) {
        Ok(v) => v,
        Err(e) => {
            return Err(e);
        },
    };
    let ghost es = spec_decode_container(b@)->Some_0;
    let mut out: Vec<ExtractedFile> = Vec::new();
    let mut i: usize = 0;
    while i < entries.len()
        invariant
            i <= entries@.len(),
            entries_model(entries@) == es,
            out@.len() == i,
            forall|k: int|
                0 <= k < i ==> (#[trigger] out@[k]).path@ == es[k].path && (match zstd_decompress(
                    es[k].payload,
                ) {
                    Some(raw) => out@[k].content matches Some(c) && c@ == raw,
                    None => out@[k].content is None,
                }),
        decreases entries@.len() - i,
    {
        assert(entries@[i as int]@ == es[i as int]);
        let path = slice_to_vec(entries[i].path.as_slice());
        let content = decompress_bytes(entries[i].payload.as_slice());
        out.push(ExtractedFile { path, content });
        i = i + 1;
    }
    Ok(out)
}

/// One listing row: the stored path bytes, the path as text (or the sentinel
/// for a path that is not valid UTF-8), and the two recorded sizes.
pub struct ListRow {
    pub path: Vec<u8>,
    pub name: String,
    pub name_valid: bool,
    pub original_size: u64,
    pub compressed_size: u64,
}

/// Lists a container without extracting it: one row per record, in container
/// order. A path that is not valid UTF-8 does not abort the scan; its row
/// carries the sentinel text and is flagged.
pub fn list_container(b: &[u8]) -> (r: Result<Vec<ListRow>, FormatError>)
    ensures
        match spec_decode_container(b@) {
            Some(es) => r matches Ok(v) && v@.len() == es.len() && (forall|i: int|
                0 <= i < es.len() ==> {
                    let row = #[trigger] v@[i];
                    &&& row.path@ == es[i].path
                    &&& row.original_size == es[i].original_size
                    &&& row.compressed_size == es[i].payload.len()
                    &&& row.name_valid == valid_utf8(es[i].path)
                    &&& (valid_utf8(es[i].path) ==> encode_utf8(row.name@) == es[i].path)
                    &&& (!valid_utf8(es[i].path) ==> row.name@ == "<invalid utf8>"@)
                }),
            None => r matches Err(FormatError::Truncated),
        },
{
    let entries = match decode_container(b) {
        Ok(v) => v,
        Err(e) => {
            return Err(e);
        },
    };
    let ghost es = spec_decode_container(b@)->Some_0;
    let mut out: Vec<ListRow> = Vec::new();
    let mut i: usize = 0;
    while i < entries.len()
        invariant
            i <= entries@.len(),
            entries_model(entries@) == es,
            out@.len() == i,
            forall|k: int|
                0 <= k < i ==> {
                    let row = #[trigger] out@[k];
                    &&& row.path@ == es[k].path
                    &&& row.original_size == es[k].original_size
                    &&& row.compressed_size == es[k].payload.len()
                    &&& row.name_valid == valid_utf8(es[k].path)
                    &&& (valid_utf8(es[k].path) ==> encode_utf8(row.name@) == es[k].path)
                    &&& (!valid_utf8(es[k].path) ==> row.name@ == "<invalid utf8>"@)
                },
        decreases entries@.len() - i,
    {
        assert(entries@[i as int]@ == es[i as int]);
        let e = &entries[i];
        let path = slice_to_vec(e.path.as_slice());
        let (name, name_valid) = match bytes_to_string(e.path.as_slice()) {
            Some(s) => (s, true),
            None => ("<invalid utf8>".to_owned(), false),
        };
        let compressed_size = e.payload.len() as u64;
        out.push(
            ListRow {
                path,
                name,
                name_valid,
                original_size: e.original_size,
                compressed_size,
            },
        );
        i = i + 1;
    }
    Ok(out)
}

} // verus!
