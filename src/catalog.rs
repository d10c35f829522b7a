//! The consumer-facing catalog: files with composed paths, resolved
//! languages, and chunks placed within their bundles and files.
use crate::error::Error;
use crate::hash::{hash_type_of, HashType};
use crate::fb::u32_le;
use crate::raw::{
    bundle_ids_ok, bundle_ok, chunk_map, lemma_chunk_map_entry, CHUNK_LIMIT, body_bytes, bundles_ok, decoded_body, dirs_ok, langs_ok, params_ok, zstd_decoded, HEADER_SIZE,
    lemma_size_prefix_nonneg, size_prefix, chunks_resolve, file_langs, file_path, langs_resolve, names_view, placed_chunks, raw_manifest,
    FileModel, RawModel,
};
use crate::raw;
use crate::fb::ReadPtr;
use vstd::prelude::*;

verus! {

/// A chunk placed both within its bundle and within one file.
#[derive(Clone, Copy, Debug, Default, PartialEq, Eq, Structural)]
pub struct Chunk {
    pub chunk_id: u64,
    pub bundle_id: u64,
    pub size_compressed: u32,
    pub size_uncompressed: u32,
    pub offset_compressed: u32,
    pub offset_uncompressed: u32,
}

/// A file of the catalog, ready to be verified or downloaded.
#[derive(Clone, Debug)]
pub struct File {
    pub id: u64,
    pub name: String,
    pub link_name: String,
    pub size: u32,
    pub max_uncompressed: u32,
    pub hash_type: HashType,
    pub langs: Vec<String>,
    pub chunks: Vec<Chunk>,
}

/// A decoded catalog: the manifest's id and its files.
#[derive(Clone, Debug)]
pub struct Manifest {
    pub id: u64,
    pub files: Vec<File>,
}

/// What a catalog file stands for.
pub ghost struct FileView {
    pub id: u64,
    pub name: Seq<char>,
    pub link_name: Seq<char>,
    pub size: u32,
    pub max_uncompressed: u32,
    pub hash_type: HashType,
    pub langs: Set<Seq<char>>,
    pub chunks: Seq<Chunk>,
}

/// Every chunk respects the parameter block's size limit and ends within the file.
pub open spec fn chunks_fit(cs: Seq<Chunk>, max_uncompressed: u32, size: u32) -> bool {
    forall|i: int|
        0 <= i < cs.len() ==> (#[trigger] cs[i]).size_uncompressed <= max_uncompressed
            && cs[i].offset_uncompressed + cs[i].size_uncompressed <= size
}

/// The catalog entry for the raw file `f`, or `None` when it does not resolve.
pub open spec fn catalog_file(m: RawModel, f: FileModel) -> Option<FileView> {
    if file_path(m.dirs, f.name, f.parent_id) is Ok && f.params_index < m.params.len()
        && hash_type_of(m.params[f.params_index as int].hash_type) is Some && langs_resolve(
        m.langs,
        f.lang_flags,
    ) && chunks_resolve(m.chunks, f.chunk_ids) && chunks_fit(
        placed_chunks(m.chunks, f.chunk_ids),
        m.params[f.params_index as int].max_uncompressed,
        f.size,
    ) {
        Some(
            FileView {
                id: f.id,
                name: file_path(m.dirs, f.name, f.parent_id)->Ok_0,
                link_name: f.link,
                size: f.size,
                max_uncompressed: m.params[f.params_index as int].max_uncompressed,
                hash_type: hash_type_of(m.params[f.params_index as int].hash_type)->0,
                langs: file_langs(m.langs, f.lang_flags),
                chunks: placed_chunks(m.chunks, f.chunk_ids),
            },
        )
    } else {
        None
    }
}

/// The catalog of the raw manifest `m`: every file resolved, in order.
pub open spec fn catalog(m: RawModel) -> Option<Seq<FileView>> {
    if forall|i: int| 0 <= i < m.files.len() ==> (#[trigger] catalog_file(m, m.files[i])) is Some {
        Some(Seq::new(m.files.len(), |i: int| catalog_file(m, m.files[i])->0))
    } else {
        None
    }
}

/// The id and files of the manifest that the bytes `d` hold, or `None` when
/// they are rejected.
pub open spec fn manifest_of(d: Seq<u8>) -> Option<(u64, Seq<FileView>)> {
    match raw_manifest(d) {
        None => None,
        Some(m) => match catalog(m) {
            None => None,
            Some(fs) => Some((m.id, fs)),
        },
    }
}

impl File {
    pub open spec fn view(&self) -> FileView {
        FileView {
            id: self.id,
            name: self.name@,
            link_name: self.link_name@,
            size: self.size,
            max_uncompressed: self.max_uncompressed,
            hash_type: self.hash_type,
            langs: names_view(self.langs@).to_set(),
            chunks: self.chunks@,
        }
    }
}

impl Manifest {
    /// The views of the files, in order.
    pub open spec fn files_view(&self) -> Seq<FileView> {
        self.files@.map_values(|f: File| f.view())
    }

    /// Resolves the raw file `file` against the lookups of `raw`.
    #[verifier::loop_isolation(false)]
    fn resolve_file(raw: &raw::Manifest, file: &raw::File) -> (r: Result<File, Error>)
        ensures
            match r {
                Ok(f) => catalog_file(raw.model(), file.model()) == Some(f.view())
                    && names_view(f.langs@).no_duplicates(),
                Err(_) => catalog_file(raw.model(), file.model()) is None,
            },
            file_path(raw.model().dirs, file.name@, file.parent_id) is Err ==> r == Err::<File, Error>(
                file_path(raw.model().dirs, file.name@, file.parent_id)->Err_0,
            ),
    {
        let ghost m = raw.model();
        let ghost fm = file.model();
        let id = file.id;
        let name = raw.get_file_name(file.name.as_str(), file.parent_id)?;
        let link_name = file.link.clone();
        let size = file.size;
        let params = raw.get_params(file.params_index)?;
        let hash_type = HashType::try_from(params.hash_type)?;
        let langs = raw.get_langs(file.lang_flags)?;
        let max_uncompressed = params.max_uncompressed;
        let chunks = raw.get_chunks(file.chunk_ids.as_slice())?;
        let mut i: usize = 0;
        while i < chunks.len()
            invariant
                i <= chunks@.len(),
                forall|k: int|
                    0 <= k < i ==> (#[trigger] chunks@[k]).size_uncompressed <= max_uncompressed
                        && chunks@[k].offset_uncompressed + chunks@[k].size_uncompressed <= size,
            decreases chunks@.len() - i,
        {
            let chunk = chunks[i];
            if chunk.size_uncompressed > max_uncompressed {
                assert(placed_chunks(m.chunks, fm.chunk_ids)[i as int] == chunk);
                return Err(Error::ChunkTooBig);
            }
            if chunk.offset_uncompressed as u64 + chunk.size_uncompressed as u64 > size as u64 {
                assert(placed_chunks(m.chunks, fm.chunk_ids)[i as int] == chunk);
                return Err(Error::ChunkOutsideFile);
            }
            i = i + 1;
        }
        Ok(File { id, name, link_name, size, max_uncompressed, hash_type, langs, chunks })
    }

    /// Decodes the manifest held in `data` and resolves every file.
    #[verifier::loop_isolation(false)]
    pub fn read(data: &[u8]) -> (r: Result<Manifest, Error>)
        ensures
            match r {
                Ok(m) => manifest_of(data@) == Some((m.id, m.files_view())) && forall|i: int|
                    0 <= i < m.files@.len() ==> names_view(
                        (#[trigger] m.files@[i]).langs@,
                    ).no_duplicates(),
                Err(_) => manifest_of(data@) is None,
            },
            data@.len() < HEADER_SIZE ==> r == Err::<Manifest, Error>(Error::HeaderShort),
            data@.len() >= HEADER_SIZE && u32_le(data@, 8) < HEADER_SIZE ==> r == Err::<
                Manifest,
                Error,
            >(Error::BodyOffset),
            data@.len() >= HEADER_SIZE && u32_le(data@, 8) >= HEADER_SIZE && u32_le(data@, 8)
                + u32_le(data@, 12) > data@.len() ==> r == Err::<Manifest, Error>(Error::BodyShort),
            body_bytes(data@) matches Some(c) && zstd_decoded(c) is None ==> r == Err::<
                Manifest,
                Error,
            >(Error::Decompress),
            decoded_body(data@) matches Some(b) && bundles_ok(b.bundles) && langs_ok(b.langs)
                && dirs_ok(b.dirs) && !params_ok(b.params) ==> r == Err::<Manifest, Error>(
                Error::ChunkLimit,
            ),
            decoded_body(data@) matches Some(b) && (forall|i: int|
                0 <= i < b.bundles.len() ==> bundle_ids_ok(#[trigger] b.bundles[i]))
                && !bundles_ok(b.bundles) ==> r == Err::<Manifest, Error>(
                Error::CompressedOffsetOverflow,
            ),
            raw_manifest(data@) matches Some(m) ==> forall|i: int|
                0 <= i < m.files.len() && (forall|k: int|
                    0 <= k < i ==> (#[trigger] catalog_file(m, m.files[k])) is Some) && file_path(
                    m.dirs,
                    (#[trigger] m.files[i]).name,
                    m.files[i].parent_id,
                ) is Err ==> r == Err::<Manifest, Error>(
                    file_path(m.dirs, m.files[i].name, m.files[i].parent_id)->Err_0,
                ),
    {
        let raw = raw::Manifest::read(data)?;
        let ghost m = raw.model();
        let mut files: Vec<File> = Vec::new();
        let mut i: usize = 0;
        while i < raw.files.len()
            invariant
                m == raw.model(),
                i <= raw.files@.len(),
                files@.len() == i,
                forall|k: int|
                    0 <= k < i ==> catalog_file(m, m.files[k]) == Some(
                        (#[trigger] files@[k]).view(),
                    ),
                forall|k: int| 0 <= k < i ==> names_view((#[trigger] files@[k]).langs@).no_duplicates(),
            decreases raw.files@.len() - i,
        {
            let file = match Self::resolve_file(&raw, &raw.files[i]) {
                Ok(f) => f,
                Err(e) => {
                    assert(catalog_file(m, m.files[i as int]) is None);
                    assert forall|j: int|
                        0 <= j < m.files.len() && (forall|k: int|
                            0 <= k < j ==> (#[trigger] catalog_file(m, m.files[k])) is Some)
                            && file_path(m.dirs, (#[trigger] m.files[j]).name, m.files[j].parent_id)
                            is Err implies Err::<Manifest, Error>(e) == Err::<Manifest, Error>(
                        file_path(m.dirs, m.files[j].name, m.files[j].parent_id)->Err_0,
                    ) by {
                        if j < i {
                            assert(catalog_file(m, m.files[j]) == Some(files@[j].view()));
                        } else if j > i {
                            assert(catalog_file(m, m.files[i as int]) is Some);
                        }
                    }
                    return Err(e);
                },
            };
            files.push(file);
            i = i + 1;
        }
        let result = Manifest { id: raw.id, files };
        assert forall|k: int| 0 <= k < m.files.len() implies (#[trigger] catalog_file(m, m.files[k])) is Some by {
            assert(catalog_file(m, m.files[k]) == Some(files@[k].view()));
        }
        assert forall|j: int| 0 <= j < m.files.len() implies !(file_path(
            m.dirs,
            (#[trigger] m.files[j]).name,
            m.files[j].parent_id,
        ) is Err) by {
            assert(catalog_file(m, m.files[j]) is Some);
        }
        assert(result.files_view() =~= Seq::new(m.files.len(), |k: int| catalog_file(m, m.files[k])->0));
        Ok(result)
    }
}

/// Sum of the uncompressed sizes of the first `n` chunks.
pub open spec fn sum_uncompressed(cs: Seq<Chunk>, n: int) -> int
    decreases n,
{
    if n <= 0 || n > cs.len() {
        0
    } else {
        sum_uncompressed(cs, n - 1) + cs[n - 1].size_uncompressed
    }
}

proof fn lemma_placed_sums(m: RawModel, f: FileModel, n: int)
    requires
        chunks_resolve(m.chunks, f.chunk_ids),
        0 <= n <= f.chunk_ids.len(),
    ensures
        sum_uncompressed(placed_chunks(m.chunks, f.chunk_ids), n) == size_prefix(m.chunks, f.chunk_ids, n),
    decreases n,
{
    if n > 0 {
        lemma_placed_sums(m, f, n - 1);
    }
}

/// Decoding depends on the bytes alone: two successful decodings of the same
/// bytes give the same id and the same files.
pub proof fn lemma_read_deterministic(d: Seq<u8>, a: Manifest, b: Manifest)
    requires
        manifest_of(d) == Some((a.id, a.files_view())),
        manifest_of(d) == Some((b.id, b.files_view())),
    ensures
        a.id == b.id,
        a.files_view() == b.files_view(),
{
}

/// A resolved file's chunks tile it from offset zero: each starts where the
/// one before it ends, so each starts at the sum of the sizes before it, and
/// the last ends at the sum of all sizes, which is at most the file's size and
/// equals it when the sizes add up to it.
pub proof fn lemma_chunks_tile(m: RawModel, f: FileModel)
    requires
        catalog_file(m, f) is Some,
    ensures
        ({
            let v = catalog_file(m, f)->0;
            let cs = v.chunks;
            &&& forall|i: int| 0 <= i < cs.len() ==> (#[trigger] cs[i]).offset_uncompressed == sum_uncompressed(cs, i)
            &&& forall|i: int|
                0 <= i < cs.len() - 1 ==> (#[trigger] cs[i + 1]).offset_uncompressed == cs[i].offset_uncompressed
                    + cs[i].size_uncompressed
            &&& cs.len() > 0 ==> cs.last().offset_uncompressed + cs.last().size_uncompressed == sum_uncompressed(
                cs,
                cs.len() as int,
            )
            &&& sum_uncompressed(cs, cs.len() as int) <= v.size
            &&& (cs.len() > 0 && sum_uncompressed(cs, cs.len() as int) == v.size) ==> cs.last().offset_uncompressed
                + cs.last().size_uncompressed == v.size
        }),
{
    let v = catalog_file(m, f)->0;
    let cs = v.chunks;
    let ids = f.chunk_ids;
    assert forall|i: int| 0 <= i < cs.len() implies (#[trigger] cs[i]).offset_uncompressed == sum_uncompressed(cs, i) by {
        lemma_placed_sums(m, f, i);
        lemma_size_prefix_nonneg(m.chunks, ids, i);
        assert(size_prefix(m.chunks, ids, i) <= u32::MAX);
    }
    assert forall|i: int| 0 <= i < cs.len() - 1 implies (#[trigger] cs[i + 1]).offset_uncompressed
        == cs[i].offset_uncompressed + cs[i].size_uncompressed by {
        lemma_placed_sums(m, f, i);
        lemma_placed_sums(m, f, i + 1);
        lemma_size_prefix_nonneg(m.chunks, ids, i);
        lemma_size_prefix_nonneg(m.chunks, ids, i + 1);
        assert(size_prefix(m.chunks, ids, i) <= u32::MAX);
        assert(size_prefix(m.chunks, ids, i + 1) <= u32::MAX);
    }
    lemma_placed_sums(m, f, cs.len() as int);
    if cs.len() > 0 {
        let n = cs.len() - 1;
        lemma_placed_sums(m, f, n);
        lemma_size_prefix_nonneg(m.chunks, ids, n);
        assert(size_prefix(m.chunks, ids, n) <= u32::MAX);
        assert(cs[n].offset_uncompressed + cs[n].size_uncompressed <= v.size);
    } else {
        assert(sum_uncompressed(cs, 0) == 0);
    }
}

/// Whatever the bytes, every file of a catalog that decodes from them has
/// chunks with non-zero ids in non-zero bundles, no larger than a limit that
/// respects the hard chunk-size cap, tiling the file from offset zero and
/// ending within it.
pub proof fn lemma_decoded_files_valid(d: Seq<u8>, i: int)
    requires
        manifest_of(d) is Some,
        0 <= i < (manifest_of(d)->0).1.len(),
    ensures
        ({
            let v = (manifest_of(d)->0).1[i];
            &&& v.max_uncompressed <= CHUNK_LIMIT
            &&& chunks_fit(v.chunks, v.max_uncompressed, v.size)
            &&& forall|k: int| 0 <= k < v.chunks.len() ==> (#[trigger] v.chunks[k]).chunk_id != 0
                && v.chunks[k].bundle_id != 0
                && v.chunks[k].offset_uncompressed == sum_uncompressed(v.chunks, k)
        }),
{
    let m = raw_manifest(d)->0;
    let b = decoded_body(d)->0;
    let f = m.files[i];
    assert(catalog_file(m, m.files[i]) is Some);
    let v = catalog_file(m, f)->0;
    assert((manifest_of(d)->0).1[i] == v);
    assert(params_ok(b.params));
    assert(m.params[f.params_index as int].max_uncompressed <= CHUNK_LIMIT);
    lemma_chunks_tile(m, f);
    assert forall|k: int| 0 <= k < v.chunks.len() implies (#[trigger] v.chunks[k]).chunk_id != 0
        && v.chunks[k].bundle_id != 0 by {
        let id = f.chunk_ids[k];
        assert(m.chunks.contains_key(id));
        assert(m.chunks == chunk_map(b.bundles));
        lemma_chunk_map_entry(b.bundles, id);
        let (bi, j) = choose|bi: int, j: int|
            0 <= bi < b.bundles.len() && 0 <= j < b.bundles[bi].1.len() && b.bundles[bi].1[j].id == id
                && #[trigger] crate::raw::chunk_of(b.bundles[bi], j) == chunk_map(b.bundles)[id]
                && chunk_map(b.bundles)[id].bundle_id == b.bundles[bi].0
                && chunk_map(b.bundles)[id].offset_compressed == crate::raw::prefix_compressed(
                b.bundles[bi].1,
                j,
            ) as u32;
        assert(bundle_ok(b.bundles[bi]));
        assert(b.bundles[bi].1[j].id != 0);
    }
}

} // verus!
