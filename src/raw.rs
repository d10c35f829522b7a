//! The manifest's tables as they are stored: header, body records, and the
//! structural checks applied to them.
use crate::catalog::Chunk;
use crate::error::Error;
use crate::fb::{table_error, field_or_default, fits, table_at, u16_le, u32_le, u64_le, Ptr, ReadPtr, Table};
use std::collections::HashMap;
use vstd::prelude::*;
use vstd::slice::slice_subrange;
use vstd::string::StringExecFns;

verus! {

/// A chunk as a bundle lists it.
#[derive(Clone, Copy, Debug, Default)]
pub struct BundleChunk {
    pub id: u64,
    pub size_compressed: u32,
    pub size_uncompressed: u32,
}

/// A bundle: its id and its chunks in stored order.
#[derive(Clone, Debug, Default)]
pub struct Bundle {
    pub id: u64,
    pub chunks: Vec<BundleChunk>,
}

/// A language: its id and display name.
#[derive(Clone, Debug, Default)]
pub struct Lang {
    pub id: u8,
    pub name: String,
}

/// A file record as stored.
#[derive(Clone, Debug, Default)]
pub struct File {
    pub id: u64,
    pub parent_id: u64,
    pub size: u32,
    pub name: String,
    pub lang_flags: u64,
    pub unk5: u8,
    pub unk6: u8,
    pub link: String,
    pub unk8: u8,
    pub chunk_ids: Vec<u64>,
    pub unk10: u8,
    pub params_index: u8,
    pub permissions: u8,
}

/// A directory: its id, its parent's id and its name.
#[derive(Clone, Debug, Default)]
pub struct Dir {
    pub id: u64,
    pub parent_id: u64,
    pub name: String,
}

/// A key record; its contents are not used.
#[derive(Clone, Copy, Debug, Default)]
pub struct Key {}

/// A parameter block shared by files.
#[derive(Clone, Copy, Debug, Default)]
pub struct Params {
    pub unk0: u16,
    pub hash_type: u8,
    pub unk2: u8,
    pub unk3: u32,
    pub max_uncompressed: u32,
}

/// The six top-level tables of the manifest body.
#[derive(Clone, Debug, Default)]
pub struct Body {
    pub bundles: Vec<Bundle>,
    pub langs: Vec<Lang>,
    pub files: Vec<File>,
    pub dirs: Vec<Dir>,
    pub keys: Vec<Key>,
    pub params: Vec<Params>,
}

/// What a file record stands for.
pub ghost struct FileModel {
    pub id: u64,
    pub parent_id: u64,
    pub size: u32,
    pub name: Seq<char>,
    pub lang_flags: u64,
    pub unk5: u8,
    pub unk6: u8,
    pub link: Seq<char>,
    pub unk8: u8,
    pub chunk_ids: Seq<u64>,
    pub unk10: u8,
    pub params_index: u8,
    pub permissions: u8,
}

/// What the body stands for.
pub ghost struct BodyModel {
    pub bundles: Seq<(u64, Seq<BundleChunk>)>,
    pub langs: Seq<(u8, Seq<char>)>,
    pub files: Seq<FileModel>,
    pub dirs: Seq<(u64, u64, Seq<char>)>,
    pub keys: Seq<()>,
    pub params: Seq<Params>,
}

impl ReadPtr for BundleChunk {
    type Model = BundleChunk;

    open spec fn model(&self) -> BundleChunk {
        *self
    }

    open spec fn spec_size() -> nat {
        4
    }

    open spec fn spec_read(d: Seq<u8>, i: int) -> Option<BundleChunk> {
        match table_at(d, i) {
            None => None,
            Some(t) => {
                let a = field_or_default::<u64>(d, t, 0);
                let b = field_or_default::<u32>(d, t, 1);
                let c = field_or_default::<u32>(d, t, 2);
                if a is Some && b is Some && c is Some {
                    Some(BundleChunk { id: a->0, size_compressed: b->0, size_uncompressed: c->0 })
                } else {
                    None
                }
            },
        }
    }

    open spec fn spec_error(d: Seq<u8>, i: int) -> Option<Error> {
        table_error(d, i)
    }

    open spec fn default_model() -> BundleChunk {
        BundleChunk { id: 0, size_compressed: 0, size_uncompressed: 0 }
    }

    fn size() -> (r: usize) {
        4
    }

    fn default_value() -> (r: BundleChunk) {
        BundleChunk { id: 0, size_compressed: 0, size_uncompressed: 0 }
    }

    fn from_ptr(p: Ptr<'_>) -> (r: Result<BundleChunk, Error>) {
        let table = Table::from_ptr(p)?;
        Ok(
            BundleChunk {
                id: table.get_or_default(0)?,
                size_compressed: table.get_or_default(1)?,
                size_uncompressed: table.get_or_default(2)?,
            },
        )
    }
}

impl ReadPtr for Bundle {
    type Model = (u64, Seq<BundleChunk>);

    open spec fn model(&self) -> (u64, Seq<BundleChunk>) {
        (self.id, self.chunks.model())
    }

    open spec fn spec_size() -> nat {
        4
    }

    open spec fn spec_read(d: Seq<u8>, i: int) -> Option<(u64, Seq<BundleChunk>)> {
        match table_at(d, i) {
            None => None,
            Some(t) => {
                let a = field_or_default::<u64>(d, t, 0);
                let b = field_or_default::<Vec<BundleChunk>>(d, t, 1);
                if a is Some && b is Some {
                    Some((a->0, b->0))
                } else {
                    None
                }
            },
        }
    }

    open spec fn spec_error(d: Seq<u8>, i: int) -> Option<Error> {
        table_error(d, i)
    }

    open spec fn default_model() -> (u64, Seq<BundleChunk>) {
        (0, Seq::empty())
    }

    fn size() -> (r: usize) {
        4
    }

    fn default_value() -> (r: Bundle) {
        Bundle { id: 0, chunks: Vec::<BundleChunk>::default_value() }
    }

    fn from_ptr(p: Ptr<'_>) -> (r: Result<Bundle, Error>) {
        let table = Table::from_ptr(p)?;
        Ok(Bundle { id: table.get_or_default(0)?, chunks: table.get_or_default(1)? })
    }
}

impl ReadPtr for Lang {
    type Model = (u8, Seq<char>);

    open spec fn model(&self) -> (u8, Seq<char>) {
        (self.id, self.name@)
    }

    open spec fn spec_size() -> nat {
        4
    }

    open spec fn spec_read(d: Seq<u8>, i: int) -> Option<(u8, Seq<char>)> {
        match table_at(d, i) {
            None => None,
            Some(t) => {
                let a = field_or_default::<u8>(d, t, 0);
                let b = field_or_default::<String>(d, t, 1);
                if a is Some && b is Some {
                    Some((a->0, b->0))
                } else {
                    None
                }
            },
        }
    }

    open spec fn spec_error(d: Seq<u8>, i: int) -> Option<Error> {
        table_error(d, i)
    }

    open spec fn default_model() -> (u8, Seq<char>) {
        (0, Seq::empty())
    }

    fn size() -> (r: usize) {
        4
    }

    fn default_value() -> (r: Lang) {
        Lang { id: 0, name: String::new() }
    }

    fn from_ptr(p: Ptr<'_>) -> (r: Result<Lang, Error>) {
        let table = Table::from_ptr(p)?;
        Ok(Lang { id: table.get_or_default(0)?, name: table.get_or_default(1)? })
    }
}

impl ReadPtr for Dir {
    type Model = (u64, u64, Seq<char>);

    open spec fn model(&self) -> (u64, u64, Seq<char>) {
        (self.id, self.parent_id, self.name@)
    }

    open spec fn spec_size() -> nat {
        4
    }

    open spec fn spec_read(d: Seq<u8>, i: int) -> Option<(u64, u64, Seq<char>)> {
        match table_at(d, i) {
            None => None,
            Some(t) => {
                let a = field_or_default::<u64>(d, t, 0);
                let b = field_or_default::<u64>(d, t, 1);
                let c = field_or_default::<String>(d, t, 2);
                if a is Some && b is Some && c is Some {
                    Some((a->0, b->0, c->0))
                } else {
                    None
                }
            },
        }
    }

    open spec fn spec_error(d: Seq<u8>, i: int) -> Option<Error> {
        table_error(d, i)
    }

    open spec fn default_model() -> (u64, u64, Seq<char>) {
        (0, 0, Seq::empty())
    }

    fn size() -> (r: usize) {
        4
    }

    fn default_value() -> (r: Dir) {
        Dir { id: 0, parent_id: 0, name: String::new() }
    }

    fn from_ptr(p: Ptr<'_>) -> (r: Result<Dir, Error>) {
        let table = Table::from_ptr(p)?;
        Ok(
            Dir {
                id: table.get_or_default(0)?,
                parent_id: table.get_or_default(1)?,
                name: table.get_or_default(2)?,
            },
        )
    }
}

impl ReadPtr for Key {
    type Model = ();

    open spec fn model(&self) -> () {
        ()
    }

    open spec fn spec_size() -> nat {
        4
    }

    open spec fn spec_read(d: Seq<u8>, i: int) -> Option<()> {
        match table_at(d, i) {
            None => None,
            Some(_) => Some(()),
        }
    }

    open spec fn spec_error(d: Seq<u8>, i: int) -> Option<Error> {
        table_error(d, i)
    }

    open spec fn default_model() -> () {
        ()
    }

    fn size() -> (r: usize) {
        4
    }

    fn default_value() -> (r: Key) {
        Key {  }
    }

    fn from_ptr(p: Ptr<'_>) -> (r: Result<Key, Error>) {
        let _table = Table::from_ptr(p)?;
        Ok(Key {  })
    }
}

impl ReadPtr for Params {
    type Model = Params;

    open spec fn model(&self) -> Params {
        *self
    }

    open spec fn spec_size() -> nat {
        4
    }

    open spec fn spec_read(d: Seq<u8>, i: int) -> Option<Params> {
        match table_at(d, i) {
            None => None,
            Some(t) => {
                let a = field_or_default::<u16>(d, t, 0);
                let b = field_or_default::<u8>(d, t, 1);
                let c = field_or_default::<u8>(d, t, 2);
                let e = field_or_default::<u32>(d, t, 3);
                let f = field_or_default::<u32>(d, t, 4);
                if a is Some && b is Some && c is Some && e is Some && f is Some {
                    Some(
                        Params {
                            unk0: a->0,
                            hash_type: b->0,
                            unk2: c->0,
                            unk3: e->0,
                            max_uncompressed: f->0,
                        },
                    )
                } else {
                    None
                }
            },
        }
    }

    open spec fn spec_error(d: Seq<u8>, i: int) -> Option<Error> {
        table_error(d, i)
    }

    open spec fn default_model() -> Params {
        Params { unk0: 0, hash_type: 0, unk2: 0, unk3: 0, max_uncompressed: 0 }
    }

    fn size() -> (r: usize) {
        4
    }

    fn default_value() -> (r: Params) {
        Params { unk0: 0, hash_type: 0, unk2: 0, unk3: 0, max_uncompressed: 0 }
    }

    fn from_ptr(p: Ptr<'_>) -> (r: Result<Params, Error>) {
        let table = Table::from_ptr(p)?;
        Ok(
            Params {
                unk0: table.get_or_default(0)?,
                hash_type: table.get_or_default(1)?,
                unk2: table.get_or_default(2)?,
                unk3: table.get_or_default(3)?,
                max_uncompressed: table.get_or_default(4)?,
            },
        )
    }
}

impl ReadPtr for File {
    type Model = FileModel;

    open spec fn model(&self) -> FileModel {
        FileModel {
            id: self.id,
            parent_id: self.parent_id,
            size: self.size,
            name: self.name@,
            lang_flags: self.lang_flags,
            unk5: self.unk5,
            unk6: self.unk6,
            link: self.link@,
            unk8: self.unk8,
            chunk_ids: self.chunk_ids@,
            unk10: self.unk10,
            params_index: self.params_index,
            permissions: self.permissions,
        }
    }

    open spec fn spec_size() -> nat {
        4
    }

    open spec fn spec_read(d: Seq<u8>, i: int) -> Option<FileModel> {
        match table_at(d, i) {
            None => None,
            Some(t) => {
                let f0 = field_or_default::<u64>(d, t, 0);
                let f1 = field_or_default::<u64>(d, t, 1);
                let f2 = field_or_default::<u32>(d, t, 2);
                let f3 = field_or_default::<String>(d, t, 3);
                let f4 = field_or_default::<u64>(d, t, 4);
                let f5 = field_or_default::<u8>(d, t, 5);
                let f6 = field_or_default::<u8>(d, t, 6);
                let f7 = field_or_default::<Vec<u64>>(d, t, 7);
                let f8 = field_or_default::<u8>(d, t, 8);
                let f9 = field_or_default::<String>(d, t, 9);
                let f10 = field_or_default::<u8>(d, t, 10);
                let f11 = field_or_default::<u8>(d, t, 11);
                let f12 = field_or_default::<u8>(d, t, 12);
                if f0 is Some && f1 is Some && f2 is Some && f3 is Some && f4 is Some && f5 is Some
                    && f6 is Some && f7 is Some && f8 is Some && f9 is Some && f10 is Some
                    && f11 is Some && f12 is Some {
                    Some(
                        FileModel {
                            id: f0->0,
                            parent_id: f1->0,
                            size: f2->0,
                            name: f3->0,
                            lang_flags: f4->0,
                            unk5: f5->0,
                            unk6: f6->0,
                            link: f9->0,
                            unk8: f8->0,
                            chunk_ids: f7->0,
                            unk10: f10->0,
                            params_index: f11->0,
                            permissions: f12->0,
                        },
                    )
                } else {
                    None
                }
            },
        }
    }

    open spec fn spec_error(d: Seq<u8>, i: int) -> Option<Error> {
        table_error(d, i)
    }

    open spec fn default_model() -> FileModel {
        FileModel {
            id: 0,
            parent_id: 0,
            size: 0,
            name: Seq::empty(),
            lang_flags: 0,
            unk5: 0,
            unk6: 0,
            link: Seq::empty(),
            unk8: 0,
            chunk_ids: Seq::empty(),
            unk10: 0,
            params_index: 0,
            permissions: 0,
        }
    }

    fn size() -> (r: usize) {
        4
    }

    fn default_value() -> (r: File) {
        let chunk_ids: Vec<u64> = Vec::new();
        File {
            id: 0,
            parent_id: 0,
            size: 0,
            name: String::new(),
            lang_flags: 0,
            unk5: 0,
            unk6: 0,
            link: String::new(),
            unk8: 0,
            chunk_ids,
            unk10: 0,
            params_index: 0,
            permissions: 0,
        }
    }

    fn from_ptr(p: Ptr<'_>) -> (r: Result<File, Error>) {
        let table = Table::from_ptr(p)?;
        let id = table.get_or_default(0)?;
        let parent_id = table.get_or_default(1)?;
        let size = table.get_or_default(2)?;
        let name = table.get_or_default(3)?;
        let lang_flags = table.get_or_default(4)?;
        let unk5 = table.get_or_default(5)?;
        let unk6 = table.get_or_default(6)?;
        let chunk_ids: Vec<u64> = table.get_or_default(7)?;
        let unk8 = table.get_or_default(8)?;
        let link = table.get_or_default(9)?;
        let unk10 = table.get_or_default(10)?;
        let params_index = table.get_or_default(11)?;
        let permissions = table.get_or_default(12)?;
        assert(chunk_ids.model() =~= chunk_ids@);
        Ok(
            File {
                id,
                parent_id,
                size,
                name,
                lang_flags,
                unk5,
                unk6,
                link,
                unk8,
                chunk_ids,
                unk10,
                params_index,
                permissions,
            },
        )
    }
}

impl ReadPtr for Body {
    type Model = BodyModel;

    open spec fn model(&self) -> BodyModel {
        BodyModel {
            bundles: self.bundles.model(),
            langs: self.langs.model(),
            files: self.files.model(),
            dirs: self.dirs.model(),
            keys: self.keys.model(),
            params: self.params.model(),
        }
    }

    open spec fn spec_size() -> nat {
        4
    }

    open spec fn spec_read(d: Seq<u8>, i: int) -> Option<BodyModel> {
        match table_at(d, i) {
            None => None,
            Some(t) => {
                let f0 = field_or_default::<Vec<Bundle>>(d, t, 0);
                let f1 = field_or_default::<Vec<Lang>>(d, t, 1);
                let f2 = field_or_default::<Vec<File>>(d, t, 2);
                let f3 = field_or_default::<Vec<Dir>>(d, t, 3);
                let f4 = field_or_default::<Vec<Key>>(d, t, 4);
                let f5 = field_or_default::<Vec<Params>>(d, t, 5);
                if f0 is Some && f1 is Some && f2 is Some && f3 is Some && f4 is Some
                    && f5 is Some {
                    Some(
                        BodyModel {
                            bundles: f0->0,
                            langs: f1->0,
                            files: f2->0,
                            dirs: f3->0,
                            keys: f4->0,
                            params: f5->0,
                        },
                    )
                } else {
                    None
                }
            },
        }
    }

    open spec fn spec_error(d: Seq<u8>, i: int) -> Option<Error> {
        table_error(d, i)
    }

    open spec fn default_model() -> BodyModel {
        BodyModel {
            bundles: Seq::empty(),
            langs: Seq::empty(),
            files: Seq::empty(),
            dirs: Seq::empty(),
            keys: Seq::empty(),
            params: Seq::empty(),
        }
    }

    fn size() -> (r: usize) {
        4
    }

    fn default_value() -> (r: Body) {
        Body {
            bundles: Vec::<Bundle>::default_value(),
            langs: Vec::<Lang>::default_value(),
            files: Vec::<File>::default_value(),
            dirs: Vec::<Dir>::default_value(),
            keys: Vec::<Key>::default_value(),
            params: Vec::<Params>::default_value(),
        }
    }

    fn from_ptr(p: Ptr<'_>) -> (r: Result<Body, Error>) {
        let table = Table::from_ptr(p)?;
        Ok(
            Body {
                bundles: table.get_or_default(0)?,
                langs: table.get_or_default(1)?,
                files: table.get_or_default(2)?,
                dirs: table.get_or_default(3)?,
                keys: table.get_or_default(4)?,
                params: table.get_or_default(5)?,
            },
        )
    }
}

/// Largest uncompressed chunk size that a parameter block may allow.
pub const CHUNK_LIMIT: u32 = 32 * 1024 * 1024;

/// Size in bytes of the fixed manifest header.
pub const HEADER_SIZE: u32 = 28;

/// The fixed-size header that precedes the compressed body.
pub struct Header {
    pub magic: [u8; 4],
    pub version: [u8; 2],
    pub flags: u16,
    pub offset: u32,
    pub size_compressed: u32,
    pub checksum: u64,
    pub size_uncompressed: u32,
}

/// What the decompressed form of `b` is, or `None` when `b` is not a valid
/// sequence of zstd frames.
pub uninterp spec fn zstd_decoded(b: Seq<u8>) -> Option<Seq<u8>>;

/// Relies on `zstd::stream::decode_all`: it decompresses every frame of its
/// input, and whether it succeeds and what it yields depend on the bytes alone.
#[verifier::external_body]
pub(crate) fn zstd_decode(b: &[u8]) -> (r: Option<Vec<u8>>)
    ensures
        match r {
            Some(v) => zstd_decoded(b@) == Some(v@),
            None => zstd_decoded(b@) is None,
        },
{
    zstd::stream::decode_all(b).ok()
}

/// Whether `c` is alphanumeric in the Unicode sense.
pub uninterp spec fn unicode_alphanumeric(c: char) -> bool;

/// Whether `c` is an ASCII letter or digit.
pub open spec fn ascii_alphanumeric(c: char) -> bool {
    ('a' <= c <= 'z') || ('A' <= c <= 'Z') || ('0' <= c <= '9')
}

/// Relies on `char::is_alphanumeric`: alphabetic or numeric in the Unicode
/// sense, which among ASCII characters are exactly the letters and digits.
#[verifier::external_body]
fn is_alphanumeric(c: char) -> (r: bool)
    ensures
        r == unicode_alphanumeric(c),
        (c as u32) < 0x80 ==> (r == ascii_alphanumeric(c)),
{
    c.is_alphanumeric()
}

/// Whether `c` may appear in a file, directory or language name.
pub open spec fn name_char_ok(c: char) -> bool {
    unicode_alphanumeric(c) || c == '.' || c == ' ' || c == '+' || c == '-' || c == '_'
}

/// The filename rule: not `.` or `..`, and every character allowed.
pub open spec fn name_ok(s: Seq<char>) -> bool {
    s != seq!['.'] && s != seq!['.', '.'] && forall|i: int|
        0 <= i < s.len() ==> name_char_ok(#[trigger] s[i])
}

/// Sum of the compressed sizes of the first `n` chunks of a bundle.
pub open spec fn prefix_compressed(cs: Seq<BundleChunk>, n: int) -> int
    decreases n,
{
    if n <= 0 || n > cs.len() {
        0
    } else {
        prefix_compressed(cs, n - 1) + cs[n - 1].size_compressed
    }
}

/// A bundle's own checks: non-zero ids, and every running compressed offset
/// fits in 32 bits.
pub open spec fn bundle_ok(b: (u64, Seq<BundleChunk>)) -> bool {
    bundle_ids_ok(b) && bundle_sums_ok(b)
}

/// A bundle's id and all its chunk ids are non-zero.
pub open spec fn bundle_ids_ok(b: (u64, Seq<BundleChunk>)) -> bool {
    &&& b.0 != 0
    &&& forall|j: int| 0 <= j < b.1.len() ==> (#[trigger] b.1[j]).id != 0
}

/// Every running compressed offset of a bundle fits in 32 bits.
pub open spec fn bundle_sums_ok(b: (u64, Seq<BundleChunk>)) -> bool {
    forall|j: int| 0 <= j <= b.1.len() ==> #[trigger] prefix_compressed(b.1, j) <= u32::MAX
}

/// The catalog entry for chunk `j` of bundle `b`.
pub open spec fn chunk_of(b: (u64, Seq<BundleChunk>), j: int) -> Chunk {
    Chunk {
        chunk_id: b.1[j].id,
        bundle_id: b.0,
        size_compressed: b.1[j].size_compressed,
        size_uncompressed: b.1[j].size_uncompressed,
        offset_compressed: prefix_compressed(b.1, j) as u32,
        offset_uncompressed: 0,
    }
}

/// `m` with the first `n` chunks of bundle `b` entered, later ones replacing
/// earlier ones with the same id.
pub open spec fn enter_bundle(m: Map<u64, Chunk>, b: (u64, Seq<BundleChunk>), n: int) -> Map<
    u64,
    Chunk,
>
    decreases n,
{
    if n <= 0 {
        m
    } else {
        enter_bundle(m, b, n - 1).insert(b.1[n - 1].id, chunk_of(b, n - 1))
    }
}

/// The chunk lookup built from bundles in order.
pub open spec fn chunk_map(bs: Seq<(u64, Seq<BundleChunk>)>) -> Map<u64, Chunk>
    decreases bs.len(),
{
    if bs.len() == 0 {
        Map::empty()
    } else {
        enter_bundle(chunk_map(bs.drop_last()), bs.last(), bs.last().1.len() as int)
    }
}

/// The language lookup: id to name, later entries replacing earlier ones.
pub open spec fn lang_map(ls: Seq<(u8, Seq<char>)>) -> Map<u8, Seq<char>>
    decreases ls.len(),
{
    if ls.len() == 0 {
        Map::empty()
    } else {
        lang_map(ls.drop_last()).insert(ls.last().0, ls.last().1)
    }
}

/// The directory lookup: id to parent id and name.
pub open spec fn dir_map(ds: Seq<(u64, u64, Seq<char>)>) -> Map<u64, (u64, Seq<char>)>
    decreases ds.len(),
{
    if ds.len() == 0 {
        Map::empty()
    } else {
        dir_map(ds.drop_last()).insert(ds.last().0, (ds.last().1, ds.last().2))
    }
}

/// Every bundle passes its own checks.
pub open spec fn bundles_ok(bs: Seq<(u64, Seq<BundleChunk>)>) -> bool {
    forall|i: int| 0 <= i < bs.len() ==> bundle_ok(#[trigger] bs[i])
}

/// Every language name passes the filename rule.
pub open spec fn langs_ok(ls: Seq<(u8, Seq<char>)>) -> bool {
    forall|i: int| 0 <= i < ls.len() ==> name_ok((#[trigger] ls[i]).1)
}

/// Every directory name passes the filename rule.
pub open spec fn dirs_ok(ds: Seq<(u64, u64, Seq<char>)>) -> bool {
    forall|i: int| 0 <= i < ds.len() ==> name_ok((#[trigger] ds[i]).2)
}

/// No parameter block allows chunks over the hard limit.
pub open spec fn params_ok(ps: Seq<Params>) -> bool {
    forall|i: int| 0 <= i < ps.len() ==> (#[trigger] ps[i]).max_uncompressed <= CHUNK_LIMIT
}

/// Every file has a non-zero id and a legal name.
pub open spec fn files_ok(fs: Seq<FileModel>) -> bool {
    forall|i: int| 0 <= i < fs.len() ==> (#[trigger] fs[i]).id != 0 && name_ok(fs[i].name)
}

/// Every structural check on a decoded body.
pub open spec fn body_ok(b: BodyModel) -> bool {
    &&& bundles_ok(b.bundles)
    &&& langs_ok(b.langs)
    &&& dirs_ok(b.dirs)
    &&& params_ok(b.params)
    &&& files_ok(b.files)
}

/// What a validated raw manifest stands for.
pub ghost struct RawModel {
    pub id: u64,
    pub files: Seq<FileModel>,
    pub chunks: Map<u64, Chunk>,
    pub langs: Map<u8, Seq<char>>,
    pub dirs: Map<u64, (u64, Seq<char>)>,
    pub params: Seq<Params>,
}

/// The body bytes that the header of `d` designates, if they are all there.
pub open spec fn body_bytes(d: Seq<u8>) -> Option<Seq<u8>> {
    if d.len() < HEADER_SIZE || u32_le(d, 8) < HEADER_SIZE {
        None
    } else if u32_le(d, 8) + u32_le(d, 12) > d.len() {
        None
    } else {
        Some(d.subrange(u32_le(d, 8), u32_le(d, 8) + u32_le(d, 12)))
    }
}

/// The body that the bytes `d` hold, decompressed and decoded.
#[verifier::opaque]
pub open spec fn decoded_body(d: Seq<u8>) -> Option<BodyModel> {
    match body_bytes(d) {
        None => None,
        Some(c) => match zstd_decoded(c) {
            None => None,
            Some(plain) => Body::spec_read(plain, 0),
        },
    }
}

/// The raw manifest that the bytes `d` hold, or `None` when they are rejected.
pub open spec fn raw_manifest(d: Seq<u8>) -> Option<RawModel> {
    match decoded_body(d) {
        None => None,
        Some(b) => if body_ok(b) {
            Some(
                RawModel {
                    id: u64_le(d, 16) as u64,
                    files: b.files,
                    chunks: chunk_map(b.bundles),
                    langs: lang_map(b.langs),
                    dirs: dir_map(b.dirs),
                    params: b.params,
                },
            )
        } else {
            None
        },
    }
}

/// `s` with ASCII capitals turned into small letters.
pub open spec fn ascii_lower(s: Seq<char>) -> Seq<char> {
    s.map_values(|c: char| if 'A' <= c <= 'Z' { ((c as u32) + 32) as char } else { c })
}

/// Relies on `str::to_ascii_lowercase`: ASCII capitals become small letters,
/// every other character is kept.
#[verifier::external_body]
fn to_ascii_lowercase(s: &str) -> (r: String)
    ensures
        r@ == ascii_lower(s@),
{
    s.to_ascii_lowercase()
}

/// The path of a file named `name` whose walk has reached directory `cur`:
/// each directory's name is prepended with `/` until a directory with an empty
/// name; the walk fails on a missing directory, on a return to `org`, or once
/// it has taken more steps than `fuel`.
pub open spec fn compose_path(
    dirs: Map<u64, (u64, Seq<char>)>,
    name: Seq<char>,
    cur: u64,
    org: u64,
    fuel: nat,
) -> Result<Seq<char>, Error>
    decreases fuel,
{
    if !dirs.contains_key(cur) {
        Err(Error::DirNotFound)
    } else if dirs[cur].1.len() == 0 {
        Ok(name)
    } else if dirs[cur].0 == org || fuel == 0 {
        Err(Error::DirCycle)
    } else {
        compose_path(dirs, dirs[cur].1 + seq!['/'] + name, dirs[cur].0, org, (fuel - 1) as nat)
    }
}

/// The full path of a file; a walk longer than the number of directories
/// must revisit one, so that many steps bound it.
pub open spec fn file_path(dirs: Map<u64, (u64, Seq<char>)>, name: Seq<char>, parent_id: u64) -> Result<
    Seq<char>,
    Error,
> {
    compose_path(dirs, name, parent_id, parent_id, dirs.len())
}

/// Whether bit `i` of the language flags is set.
pub open spec fn lang_bit(flags: u64, i: int) -> bool {
    flags & (1u64 << (i as u64)) != 0
}

/// Every set bit among the low 32 names a known language.
pub open spec fn langs_resolve(langs: Map<u8, Seq<char>>, flags: u64) -> bool {
    forall|i: int| 0 <= i < 32 && #[trigger] lang_bit(flags, i) ==> langs.contains_key((i + 1) as u8)
}

/// The name `none`, given to files that name no language.
pub open spec fn no_lang() -> Seq<char> {
    seq!['n', 'o', 'n', 'e']
}

/// The lowercased names of the languages whose bits among the first `n` are set.
pub open spec fn lang_names(langs: Map<u8, Seq<char>>, flags: u64, n: int) -> Set<Seq<char>> {
    Set::new(
        |s: Seq<char>|
            exists|i: int|
                0 <= i < n && #[trigger] lang_bit(flags, i) && s == ascii_lower(
                    langs[(i + 1) as u8],
                ),
    )
}

/// The language set of a file: its languages' names, or `none` when it names none.
pub open spec fn file_langs(langs: Map<u8, Seq<char>>, flags: u64) -> Set<Seq<char>> {
    if exists|i: int| 0 <= i < 32 && #[trigger] lang_bit(flags, i) {
        lang_names(langs, flags, 32)
    } else {
        set![no_lang()]
    }
}

/// Sum of the uncompressed sizes of the chunks that the first `n` ids name.
pub open spec fn size_prefix(m: Map<u64, Chunk>, ids: Seq<u64>, n: int) -> int
    decreases n,
{
    if n <= 0 || n > ids.len() {
        0
    } else {
        size_prefix(m, ids, n - 1) + m[ids[n - 1]].size_uncompressed
    }
}

/// Every id is known and every running uncompressed offset fits in 32 bits.
pub open spec fn chunks_resolve(m: Map<u64, Chunk>, ids: Seq<u64>) -> bool {
    &&& forall|i: int| 0 <= i < ids.len() ==> m.contains_key(#[trigger] ids[i])
    &&& forall|n: int| 0 <= n <= ids.len() ==> #[trigger] size_prefix(m, ids, n) <= u32::MAX
}

/// The `i`-th chunk of a file, placed at the running uncompressed offset.
pub open spec fn placed_chunk(m: Map<u64, Chunk>, ids: Seq<u64>, i: int) -> Chunk {
    Chunk { offset_uncompressed: size_prefix(m, ids, i) as u32, ..m[ids[i]] }
}

/// A file's chunks in order, each placed within the file.
pub open spec fn placed_chunks(m: Map<u64, Chunk>, ids: Seq<u64>) -> Seq<Chunk> {
    Seq::new(ids.len(), |i: int| placed_chunk(m, ids, i))
}

impl Header {
    /// Reads the header at the start of `data`.
    pub fn read(data: &[u8]) -> (r: Result<Header, Error>)
        ensures
            match r {
                Ok(h) => data@.len() >= HEADER_SIZE && h.magic@ == data@.subrange(0, 4)
                    && h.version@ == data@.subrange(4, 6) && h.flags == u16_le(data@, 6) && h.offset
                    == u32_le(data@, 8) && h.size_compressed == u32_le(data@, 12) && h.checksum
                    == u64_le(data@, 16) && h.size_uncompressed == u32_le(data@, 24),
                Err(e) => data@.len() < HEADER_SIZE && e == Error::HeaderShort,
            },
    {
        if data.len() < 28 {
            return Err(Error::HeaderShort);
        }
        let magic: [u8; 4] = [data[0], data[1], data[2], data[3]];
        let version: [u8; 2] = [data[4], data[5]];
        assert(magic@ =~= data@.subrange(0, 4));
        assert(version@ =~= data@.subrange(4, 6));
        Ok(
            Header {
                magic,
                version,
                flags: Ptr { data, index: 6 }.get::<u16>()?,
                offset: Ptr { data, index: 8 }.get::<u32>()?,
                size_compressed: Ptr { data, index: 12 }.get::<u32>()?,
                checksum: Ptr { data, index: 16 }.get::<u64>()?,
                size_uncompressed: Ptr { data, index: 24 }.get::<u32>()?,
            },
        )
    }
}

/// A decoded and structurally checked manifest, before cross-referencing.
pub struct Manifest {
    pub id: u64,
    pub files: Vec<File>,
    pub chunks: HashMap<u64, Chunk>,
    pub langs: HashMap<u8, Lang>,
    pub dirs: HashMap<u64, Dir>,
    pub params: Vec<Params>,
}

/// Enters every bundle's chunks into a lookup by chunk id.
fn index_chunks(bundles: &Vec<Bundle>) -> (r: Result<HashMap<u64, Chunk>, Error>)
    ensures
        match r {
            Ok(m) => bundles_ok(bundles.model()) && m@ == chunk_map(bundles.model()),
            Err(_) => !bundles_ok(bundles.model()),
        },
        (forall|i: int| 0 <= i < bundles@.len() ==> bundle_ids_ok(#[trigger] bundles.model()[i]))
            && r is Err ==> r == Err::<HashMap<u64, Chunk>, Error>(Error::CompressedOffsetOverflow),
        (forall|i: int| 0 <= i < bundles@.len() ==> bundle_sums_ok(#[trigger] bundles.model()[i]))
            && r is Err ==> r == Err::<HashMap<u64, Chunk>, Error>(Error::ZeroBundleId) || r == Err::<
            HashMap<u64, Chunk>,
            Error,
        >(Error::ZeroChunkId),
{
    broadcast use vstd::std_specs::hash::group_hash_axioms;

    let ghost bms = bundles.model();
    let mut chunks: HashMap<u64, Chunk> = HashMap::new();
    let mut i: usize = 0;
    assert(bms.take(0) =~= Seq::<(u64, Seq<BundleChunk>)>::empty());
    while i < bundles.len()
        invariant
            i <= bundles@.len(),
            bms == bundles.model(),
            chunks@ == chunk_map(bms.take(i as int)),
            forall|k: int| 0 <= k < i ==> bundle_ok(#[trigger] bms[k]),
        decreases bundles@.len() - i,
    {
        let bundle = &bundles[i];
        let ghost b = bms[i as int];
        assert(b.1 =~= bundle.chunks@);
        if bundle.id == 0 {
            assert(!bundle_ids_ok(bms[i as int]));
            return Err(Error::ZeroBundleId);
        }
        let mut offset: u64 = 0;
        let mut j: usize = 0;
        while j < bundle.chunks.len()
            invariant
                i < bundles@.len(),
                bms == bundles.model(),
                b == bms[i as int],
                b.0 == bundle.id,
                b.1 == bundle.chunks@,
                b.0 != 0,
                j <= b.1.len(),
                offset == prefix_compressed(b.1, j as int),
                offset <= u32::MAX,
                chunks@ == enter_bundle(chunk_map(bms.take(i as int)), b, j as int),
                forall|k: int| 0 <= k < j ==> (#[trigger] b.1[k]).id != 0,
                forall|k: int| 0 <= k <= j ==> #[trigger] prefix_compressed(b.1, k) <= u32::MAX,
            decreases b.1.len() - j,
        {
            let chunk = bundle.chunks[j];
            if chunk.id == 0 {
                assert(!bundle_ids_ok(bms[i as int]));
                assert(!bundle_ok(bms[i as int]));
                return Err(Error::ZeroChunkId);
            }
            chunks.insert(
                chunk.id,
                Chunk {
                    chunk_id: chunk.id,
                    bundle_id: bundle.id,
                    size_compressed: chunk.size_compressed,
                    size_uncompressed: chunk.size_uncompressed,
                    offset_compressed: offset as u32,
                    offset_uncompressed: 0,
                },
            );
            offset = offset + chunk.size_compressed as u64;
            if offset > u32::MAX as u64 {
                assert(prefix_compressed(b.1, j + 1) > u32::MAX);
                assert(!bundle_sums_ok(bms[i as int]));
                assert(!bundle_ok(bms[i as int]));
                return Err(Error::CompressedOffsetOverflow);
            }
            j = j + 1;
        }
        assert(bms.take(i + 1).drop_last() =~= bms.take(i as int));
        i = i + 1;
    }
    assert(bms.take(i as int) =~= bms);
    Ok(chunks)
}

/// Checks every language name and enters the languages into a lookup by id.
fn index_langs(langs: &Vec<Lang>) -> (r: Result<HashMap<u8, Lang>, Error>)
    ensures
        match r {
            Ok(m) => langs_ok(langs.model()) && m@.map_values(|l: Lang| l.name@) == lang_map(
                langs.model(),
            ),
            Err(_) => !langs_ok(langs.model()),
        },
{
    broadcast use vstd::std_specs::hash::group_hash_axioms;

    let ghost lms = langs.model();
    let mut m: HashMap<u8, Lang> = HashMap::new();
    let mut i: usize = 0;
    assert(lms.take(0) =~= Seq::<(u8, Seq<char>)>::empty());
    assert(m@.map_values(|l: Lang| l.name@) =~= Map::<u8, Seq<char>>::empty());
    while i < langs.len()
        invariant
            i <= langs@.len(),
            lms == langs.model(),
            m@.map_values(|l: Lang| l.name@) == lang_map(lms.take(i as int)),
            forall|k: int| 0 <= k < i ==> name_ok((#[trigger] lms[k]).1),
        decreases langs@.len() - i,
    {
        let lang = &langs[i];
        if let Err(e) = verify_filename(lang.name.as_str()) {
            assert(!name_ok(lms[i as int].1));
            return Err(e);
        }
        let ghost before = m@;
        m.insert(lang.id, Lang { id: lang.id, name: lang.name.clone() });
        assert(lms.take(i + 1).drop_last() =~= lms.take(i as int));
        assert(m@.map_values(|l: Lang| l.name@) =~= before.map_values(|l: Lang| l.name@).insert(
            lang.id,
            lang.name@,
        ));
        i = i + 1;
    }
    assert(lms.take(i as int) =~= lms);
    Ok(m)
}

/// Checks every directory name and enters the directories into a lookup by id.
fn index_dirs(dirs: &Vec<Dir>) -> (r: Result<HashMap<u64, Dir>, Error>)
    ensures
        match r {
            Ok(m) => dirs_ok(dirs.model()) && m@.map_values(|d: Dir| (d.parent_id, d.name@))
                == dir_map(dirs.model()),
            Err(_) => !dirs_ok(dirs.model()),
        },
{
    broadcast use vstd::std_specs::hash::group_hash_axioms;

    let ghost dms = dirs.model();
    let mut m: HashMap<u64, Dir> = HashMap::new();
    let mut i: usize = 0;
    assert(dms.take(0) =~= Seq::<(u64, u64, Seq<char>)>::empty());
    assert(m@.map_values(|d: Dir| (d.parent_id, d.name@)) =~= Map::<u64, (u64, Seq<char>)>::empty());
    while i < dirs.len()
        invariant
            i <= dirs@.len(),
            dms == dirs.model(),
            m@.map_values(|d: Dir| (d.parent_id, d.name@)) == dir_map(dms.take(i as int)),
            forall|k: int| 0 <= k < i ==> name_ok((#[trigger] dms[k]).2),
        decreases dirs@.len() - i,
    {
        let dir = &dirs[i];
        if let Err(e) = verify_filename(dir.name.as_str()) {
            assert(!name_ok(dms[i as int].2));
            return Err(e);
        }
        let ghost before = m@;
        m.insert(dir.id, Dir { id: dir.id, parent_id: dir.parent_id, name: dir.name.clone() });
        assert(dms.take(i + 1).drop_last() =~= dms.take(i as int));
        assert(m@.map_values(|d: Dir| (d.parent_id, d.name@)) =~= before.map_values(
            |d: Dir| (d.parent_id, d.name@),
        ).insert(dir.id, (dir.parent_id, dir.name@)));
        i = i + 1;
    }
    assert(dms.take(i as int) =~= dms);
    Ok(m)
}

/// Checks that `name` is a legal file, directory or language name.
pub fn verify_filename(name: &str) -> (r: Result<(), Error>)
    ensures
        r is Ok <==> name_ok(name@),
{
    let n = name.unicode_len();
    if n == 1 && name.get_char(0) == '.' {
        assert(name@ =~= seq!['.']);
        return Err(Error::DotName);
    }
    if n == 2 && name.get_char(0) == '.' && name.get_char(1) == '.' {
        assert(name@ =~= seq!['.', '.']);
        return Err(Error::DotName);
    }
    assert(name@ != seq!['.']) by {
        if name@ == seq!['.'] {
            assert(name@[0] == '.');
        }
    }
    assert(name@ != seq!['.', '.']) by {
        if name@ == seq!['.', '.'] {
            assert(name@[0] == '.' && name@[1] == '.');
        }
    }
    let mut i: usize = 0;
    while i < n
        invariant
            n == name@.len(),
            i <= n,
            forall|k: int| 0 <= k < i ==> name_char_ok(#[trigger] name@[k]),
        decreases n - i,
    {
        let c = name.get_char(i);
        if !(is_alphanumeric(c) || c == '.' || c == ' ' || c == '+' || c == '-' || c == '_') {
            return Err(Error::IllegalChar);
        }
        i = i + 1;
    }
    Ok(())
}

/// Reads the header of `data`, then decompresses and decodes the body it designates.
fn decode_body(data: &[u8]) -> (r: Result<(Header, Body), Error>)
    ensures
        match r {
            Ok((h, b)) => decoded_body(data@) == Some(b.model()) && h.checksum == u64_le(data@, 16),
            Err(_) => decoded_body(data@) is None,
        },
            data@.len() < HEADER_SIZE ==> r == Err::<(Header, Body), Error>(Error::HeaderShort),
            data@.len() >= HEADER_SIZE && u32_le(data@, 8) < HEADER_SIZE ==> r == Err::<
                (Header, Body),
                Error,
            >(Error::BodyOffset),
            data@.len() >= HEADER_SIZE && u32_le(data@, 8) >= HEADER_SIZE && u32_le(data@, 8)
                + u32_le(data@, 12) > data@.len() ==> r == Err::<(Header, Body), Error>(
                Error::BodyShort,
            ),
            body_bytes(data@) matches Some(c) && zstd_decoded(c) is None ==> r == Err::<
                (Header, Body),
                Error,
            >(Error::Decompress),
{
    let header = match Header::read(data) {
        Ok(h) => h,
        Err(e) => {
            proof {
                reveal(decoded_body);
            }
            return Err(e);
        },
    };
    if header.offset < HEADER_SIZE {
        proof {
            reveal(decoded_body);
        }
        return Err(Error::BodyOffset);
    }
    let start = header.offset as usize;
    let size = header.size_compressed as usize;
    if start > data.len() || size > data.len() - start {
        proof {
            reveal(decoded_body);
        }
        return Err(Error::BodyShort);
    }
    let decoded = match zstd_decode(slice_subrange(data, start, start + size)) {
        Some(v) => v,
        None => {
            proof {
                reveal(decoded_body);
            }
            return Err(Error::Decompress);
        },
    };
    let body = match Ptr::new(decoded.as_slice(), 0)?.get::<Body>() {
        Ok(b) => b,
        Err(e) => {
            proof {
                reveal(decoded_body);
            }
            return Err(e);
        },
    };
    proof {
        reveal(decoded_body);
    }
    Ok((header, body))
}

/// Checks every parameter block against the chunk-size limit.
fn check_params(params: &Vec<Params>) -> (r: Result<(), Error>)
    ensures
        r is Ok <==> params_ok(params.model()),
        r is Err ==> r == Err::<(), Error>(Error::ChunkLimit),
{
    let mut i: usize = 0;
    while i < params.len()
        invariant
            i <= params@.len(),
            forall|k: int| 0 <= k < i ==> (#[trigger] params.model()[k]).max_uncompressed <= CHUNK_LIMIT,
        decreases params@.len() - i,
    {
        if params[i].max_uncompressed > CHUNK_LIMIT {
            assert(params.model()[i as int].max_uncompressed > CHUNK_LIMIT);
            return Err(Error::ChunkLimit);
        }
        i = i + 1;
    }
    Ok(())
}

/// Checks every file's id and name.
fn check_files(files: &Vec<File>) -> (r: Result<(), Error>)
    ensures
        r is Ok <==> files_ok(files.model()),
{
    let mut i: usize = 0;
    while i < files.len()
        invariant
            i <= files@.len(),
            forall|k: int| 0 <= k < i ==> (#[trigger] files.model()[k]).id != 0 && name_ok(files.model()[k].name),
        decreases files@.len() - i,
    {
        let file = &files[i];
        if file.id == 0 {
            assert(files.model()[i as int].id == 0);
            return Err(Error::ZeroFileId);
        }
        if let Err(e) = verify_filename(file.name.as_str()) {
            assert(!name_ok(files.model()[i as int].name));
            return Err(e);
        }
        i = i + 1;
    }
    Ok(())
}

impl Manifest {
    pub open spec fn model(&self) -> RawModel {
        RawModel {
            id: self.id,
            files: self.files.model(),
            chunks: self.chunks@,
            langs: self.langs@.map_values(|l: Lang| l.name@),
            dirs: self.dirs@.map_values(|d: Dir| (d.parent_id, d.name@)),
            params: self.params@,
        }
    }

    /// Decodes the manifest held in `data` and applies the structural checks.
    pub fn read(data: &[u8]) -> (r: Result<Manifest, Error>)
        ensures
            match r {
                Ok(m) => raw_manifest(data@) == Some(m.model()),
                Err(_) => raw_manifest(data@) is None,
            },
            data@.len() < HEADER_SIZE ==> r == Err::<Manifest, Error>(Error::HeaderShort),
            data@.len() >= HEADER_SIZE && u32_le(data@, 8) < HEADER_SIZE ==> r == Err::<
                Manifest,
                Error,
            >(Error::BodyOffset),
            data@.len() >= HEADER_SIZE && u32_le(data@, 8) >= HEADER_SIZE && u32_le(data@, 8)
                + u32_le(data@, 12) > data@.len() ==> r == Err::<Manifest, Error>(Error::BodyShort),
            body_bytes(data@) matches Some(c) && zstd_decoded(c) is None ==> r == Err::<
                Manifest,
                Error,
            >(Error::Decompress),
            decoded_body(data@) matches Some(b) && bundles_ok(b.bundles) && langs_ok(b.langs)
                && dirs_ok(b.dirs) && !params_ok(b.params) ==> r == Err::<Manifest, Error>(
                Error::ChunkLimit,
            ),
            decoded_body(data@) matches Some(b) && (forall|i: int|
                0 <= i < b.bundles.len() ==> bundle_ids_ok(#[trigger] b.bundles[i]))
                && !bundles_ok(b.bundles) ==> r == Err::<Manifest, Error>(
                Error::CompressedOffsetOverflow,
            ),
    {
        let (header, body) = decode_body(data)?;
        let chunks = index_chunks(&body.bundles)?;
        let langs = index_langs(&body.langs)?;
        let dirs = index_dirs(&body.dirs)?;
        check_params(&body.params)?;
        check_files(&body.files)?;
        assert(body.params.model() =~= body.params@);
        Ok(
            Manifest {
                id: header.checksum,
                files: body.files,
                chunks,
                langs,
                dirs,
                params: body.params,
            },
        )
    }
}

impl Manifest {
    /// The path of a file named `name` in directory `parent_id`.
    #[verifier::loop_isolation(false)]
    pub fn get_file_name(&self, name: &str, parent_id: u64) -> (r: Result<String, Error>)
        ensures
            match r {
                Ok(s) => file_path(self.model().dirs, name@, parent_id) == Ok::<Seq<char>, Error>(s@),
                Err(e) => file_path(self.model().dirs, name@, parent_id) == Err::<Seq<char>, Error>(e),
            },
    {
        broadcast use vstd::std_specs::hash::group_hash_axioms;

        let ghost dirs = self.model().dirs;
        let mut path = name.to_owned();
        let org_parent_id = parent_id;
        let mut parent_id = parent_id;
        let mut fuel: usize = self.dirs.len();
        assert(dirs.dom() =~= self.dirs@.dom());
        loop
            invariant
                dirs == self.model().dirs,
                file_path(dirs, name@, org_parent_id) == compose_path(
                    dirs,
                    path@,
                    parent_id,
                    org_parent_id,
                    fuel as nat,
                ),
            decreases fuel,
        {
            match self.dirs.get(&parent_id) {
                None => {
                    assert(!dirs.contains_key(parent_id));
                    return Err(Error::DirNotFound);
                },
                Some(dir) => {
                    assert(dirs.contains_key(parent_id));
                    assert(dirs[parent_id] == (dir.parent_id, dir.name@));
                    if dir.name.as_str().unicode_len() == 0 {
                        return Ok(path);
                    }
                    if dir.parent_id == org_parent_id || fuel == 0 {
                        return Err(Error::DirCycle);
                    }
                    let mut next = dir.name.clone();
                    next.append("/");
                    next.append(path.as_str());
                    proof {
                        reveal_strlit("/");
                        assert(next@ =~= dir.name@ + seq!['/'] + path@);
                    }
                    path = next;
                    parent_id = dir.parent_id;
                    fuel = fuel - 1;
                },
            }
        }
    }

    /// The parameter block at `params_id`.
    pub fn get_params(&self, params_id: u8) -> (r: Result<Params, Error>)
        ensures
            match r {
                Ok(p) => params_id < self.params@.len() && p == self.params@[params_id as int],
                Err(e) => params_id >= self.params@.len() && e == Error::ParamsNotFound,
            },
    {
        if (params_id as usize) < self.params.len() {
            Ok(self.params[params_id as usize])
        } else {
            Err(Error::ParamsNotFound)
        }
    }

    /// The chunk with id `chunk_id`, as placed in its bundle.
    pub fn get_chunk(&self, chunk_id: u64) -> (r: Result<Chunk, Error>)
        ensures
            match r {
                Ok(c) => self.chunks@.contains_key(chunk_id) && c == self.chunks@[chunk_id],
                Err(e) => !self.chunks@.contains_key(chunk_id) && e == Error::ChunkNotFound,
            },
    {
        broadcast use vstd::std_specs::hash::group_hash_axioms;

        match self.chunks.get(&chunk_id) {
            Some(c) => Ok(*c),
            None => Err(Error::ChunkNotFound),
        }
    }

    /// The chunks that `chunk_ids` name, in order, each placed at the running
    /// uncompressed offset within the file.
    pub fn get_chunks(&self, chunk_ids: &[u64]) -> (r: Result<Vec<Chunk>, Error>)
        ensures
            match r {
                Ok(v) => chunks_resolve(self.chunks@, chunk_ids@) && v@ == placed_chunks(
                    self.chunks@,
                    chunk_ids@,
                ),
                Err(_) => !chunks_resolve(self.chunks@, chunk_ids@),
            },
    {
        let ghost m = self.chunks@;
        let ghost ids = chunk_ids@;
        let mut offset_uncompressed: u64 = 0;
        let mut results: Vec<Chunk> = Vec::new();
        let mut i: usize = 0;
        while i < chunk_ids.len()
            invariant
                m == self.chunks@,
                ids == chunk_ids@,
                i <= ids.len(),
                offset_uncompressed == size_prefix(m, ids, i as int),
                forall|k: int| 0 <= k < i ==> m.contains_key(#[trigger] ids[k]),
                forall|n: int| 0 <= n <= i ==> #[trigger] size_prefix(m, ids, n) <= u32::MAX,
                results@ =~= Seq::new(i as nat, |k: int| placed_chunk(m, ids, k)),
            decreases ids.len() - i,
        {
            let mut chunk = match self.get_chunk(chunk_ids[i]) {
                Ok(c) => c,
                Err(e) => {
                    assert(!m.contains_key(ids[i as int]));
                    return Err(e);
                },
            };
            chunk.offset_uncompressed = offset_uncompressed as u32;
            results.push(chunk);
            offset_uncompressed = offset_uncompressed + chunk.size_uncompressed as u64;
            if offset_uncompressed > u32::MAX as u64 {
                assert(size_prefix(m, ids, i + 1) > u32::MAX);
                return Err(Error::UncompressedOffsetOverflow);
            }
            i = i + 1;
        }
        Ok(results)
    }
}

/// The characters of each string, in order.
pub open spec fn names_view(v: Seq<String>) -> Seq<Seq<char>> {
    v.map_values(|x: String| x@)
}

/// Whether `v` holds a string equal to `s`.
fn contains_name(v: &Vec<String>, s: &String) -> (r: bool)
    ensures
        r == names_view(v@).contains(s@),
{
    let mut i: usize = 0;
    while i < v.len()
        invariant
            i <= v@.len(),
            forall|k: int| 0 <= k < i ==> (#[trigger] v@[k])@ != s@,
        decreases v@.len() - i,
    {
        if v[i] == *s {
            assert(names_view(v@)[i as int] == s@);
            return true;
        }
        i = i + 1;
    }
    assert forall|k: int| 0 <= k < names_view(v@).len() implies #[trigger] names_view(v@)[k] != s@ by {
        assert(v@[k]@ != s@);
    }
    false
}

impl Manifest {
    /// The set of lowercased language names that `lang_flags` selects, or
    /// `none` when it selects none.
    #[verifier::loop_isolation(false)]
    pub fn get_langs(&self, lang_flags: u64) -> (r: Result<Vec<String>, Error>)
        ensures
            match r {
                Ok(v) => langs_resolve(self.model().langs, lang_flags) && names_view(v@).to_set()
                    == file_langs(self.model().langs, lang_flags) && names_view(v@).no_duplicates(),
                Err(e) => !langs_resolve(self.model().langs, lang_flags) && e == Error::LangNotFound,
            },
    {
        broadcast use vstd::std_specs::hash::group_hash_axioms;

        let ghost langs = self.model().langs;
        let mut names: Vec<String> = Vec::new();
        let mut i: u8 = 0;
        assert(names_view(names@).to_set() =~= lang_names(langs, lang_flags, 0));
        while i < 32
            invariant
                i <= 32,
                forall|j: int| 0 <= j < i && #[trigger] lang_bit(lang_flags, j) ==> langs.contains_key((j + 1) as u8),
                names_view(names@).to_set() == lang_names(langs, lang_flags, i as int),
                names_view(names@).no_duplicates(),
            decreases 32 - i,
        {
            let ghost before = names_view(names@);
            if lang_flags & (1u64 << (i as u64)) != 0 {
                assert(lang_bit(lang_flags, i as int));
                match self.langs.get(&(i + 1)) {
                    None => {
                        assert(!langs.contains_key((i + 1) as u8));
                        return Err(Error::LangNotFound);
                    },
                    Some(lang) => {
                        assert(langs[(i + 1) as u8] == lang.name@);
                        let lower = to_ascii_lowercase(lang.name.as_str());
                        if !contains_name(&names, &lower) {
                            names.push(lower);
                            assert(names_view(names@) =~= before.push(lower@));
                            proof {
                                before.lemma_push_to_set_commute(lower@);
                            }
                        }
                        assert(lang_names(langs, lang_flags, i + 1) =~= lang_names(langs, lang_flags, i as int).insert(lower@)) by {
                            assert forall|s: Seq<char>| #[trigger] lang_names(langs, lang_flags, i + 1).contains(s)
                                implies lang_names(langs, lang_flags, i as int).insert(lower@).contains(s) by {
                                let j = choose|j: int| 0 <= j < i + 1 && #[trigger] lang_bit(lang_flags, j) && s == ascii_lower(langs[(j + 1) as u8]);
                                if j < i {
                                    assert(lang_names(langs, lang_flags, i as int).contains(s));
                                }
                            }
                        }
                        assert(names_view(names@).to_set() =~= lang_names(langs, lang_flags, i + 1)) by {
                            if before.contains(lower@) {
                                assert(before.to_set().contains(lower@));
                            }
                        }
                    },
                }
            } else {
                assert(!lang_bit(lang_flags, i as int));
                assert(lang_names(langs, lang_flags, i + 1) =~= lang_names(langs, lang_flags, i as int)) by {
                    assert forall|s: Seq<char>| #[trigger] lang_names(langs, lang_flags, i + 1).contains(s)
                        implies lang_names(langs, lang_flags, i as int).contains(s) by {
                        let j = choose|j: int| 0 <= j < i + 1 && #[trigger] lang_bit(lang_flags, j) && s == ascii_lower(langs[(j + 1) as u8]);
                        assert(j != i);
                    }
                }
            }
            i = i + 1;
        }
        if names.len() == 0 {
            assert forall|j: int| 0 <= j < 32 implies !#[trigger] lang_bit(lang_flags, j) by {
                if lang_bit(lang_flags, j) {
                    assert(lang_names(langs, lang_flags, 32).contains(ascii_lower(langs[(j + 1) as u8])));
                    assert(names_view(names@).to_set().contains(ascii_lower(langs[(j + 1) as u8])));
                }
            }
            let none = String::from_str("none");
            proof {
                reveal_strlit("none");
                assert(none@ =~= no_lang());
            }
            names.push(none);
            proof {
                assert(names_view(names@) =~= seq![no_lang()]);
                assert(seq![no_lang()].to_set() =~= set![no_lang()]) by {
                    assert(seq![no_lang()][0] == no_lang());
                }
            }
        } else {
            let ghost first = names_view(names@)[0];
            assert(names_view(names@).to_set().contains(first));
            assert(lang_names(langs, lang_flags, 32).contains(first));
        }
        Ok(names)
    }
}

proof fn lemma_prefix_nonneg(cs: Seq<BundleChunk>, n: int)
    ensures
        prefix_compressed(cs, n) >= 0,
    decreases n,
{
    if n > 0 {
        lemma_prefix_nonneg(cs, n - 1);
    }
}

/// Running uncompressed offsets are never negative.
pub proof fn lemma_size_prefix_nonneg(m: Map<u64, Chunk>, ids: Seq<u64>, n: int)
    ensures
        size_prefix(m, ids, n) >= 0,
    decreases n,
{
    if n > 0 {
        lemma_size_prefix_nonneg(m, ids, n - 1);
    }
}

proof fn lemma_prefix_increases(cs: Seq<BundleChunk>, i: int, j: int)
    requires
        0 <= i < j <= cs.len(),
        forall|k: int| 0 <= k < cs.len() ==> (#[trigger] cs[k]).size_compressed > 0,
    ensures
        prefix_compressed(cs, i) < prefix_compressed(cs, j),
    decreases j - i,
{
    if j > i + 1 {
        lemma_prefix_increases(cs, i, j - 1);
    }
}

/// Within a bundle, each chunk's compressed offset is the sum of the
/// compressed sizes of the chunks before it, and when no chunk is empty the
/// offsets strictly increase.
pub proof fn lemma_bundle_offsets(b: (u64, Seq<BundleChunk>), i: int, j: int)
    requires
        bundle_ok(b),
        0 <= i < j < b.1.len(),
        forall|k: int| 0 <= k < b.1.len() ==> (#[trigger] b.1[k]).size_compressed > 0,
    ensures
        chunk_of(b, i).offset_compressed == prefix_compressed(b.1, i),
        chunk_of(b, j).offset_compressed == prefix_compressed(b.1, j),
        chunk_of(b, i).offset_compressed < chunk_of(b, j).offset_compressed,
{
    assert(prefix_compressed(b.1, i) <= u32::MAX);
    assert(prefix_compressed(b.1, j) <= u32::MAX);
    lemma_prefix_nonneg(b.1, i);
    lemma_prefix_nonneg(b.1, j);
    lemma_prefix_increases(b.1, i, j);
}

proof fn lemma_enter_bundle_entry(m: Map<u64, Chunk>, b: (u64, Seq<BundleChunk>), n: int, k: u64)
    requires
        0 <= n <= b.1.len(),
        enter_bundle(m, b, n).contains_key(k),
    ensures
        (m.contains_key(k) && enter_bundle(m, b, n)[k] == m[k]) || exists|j: int|
            0 <= j < n && b.1[j].id == k && #[trigger] chunk_of(b, j) == enter_bundle(m, b, n)[k],
    decreases n,
{
    if n > 0 {
        if b.1[n - 1].id != k {
            lemma_enter_bundle_entry(m, b, n - 1, k);
        } else {
            assert(chunk_of(b, n - 1) == enter_bundle(m, b, n)[k]);
        }
    }
}

/// Every entry of the chunk lookup is the chunk of some bundle with that id,
/// placed at the sum of the compressed sizes before it in its bundle.
pub proof fn lemma_chunk_map_entry(bs: Seq<(u64, Seq<BundleChunk>)>, k: u64)
    requires
        chunk_map(bs).contains_key(k),
    ensures
        exists|i: int, j: int|
            0 <= i < bs.len() && 0 <= j < bs[i].1.len() && bs[i].1[j].id == k
                && #[trigger] chunk_of(bs[i], j) == chunk_map(bs)[k]
                && chunk_map(bs)[k].bundle_id == bs[i].0
                && chunk_map(bs)[k].offset_compressed == prefix_compressed(bs[i].1, j) as u32,
    decreases bs.len(),
{
    let last = bs.last();
    let rest = bs.drop_last();
    lemma_enter_bundle_entry(chunk_map(rest), last, last.1.len() as int, k);
    if chunk_map(rest).contains_key(k) && chunk_map(bs)[k] == chunk_map(rest)[k] {
        lemma_chunk_map_entry(rest, k);
        let (i, j) = choose|i: int, j: int|
            0 <= i < rest.len() && 0 <= j < rest[i].1.len() && rest[i].1[j].id == k
                && #[trigger] chunk_of(rest[i], j) == chunk_map(rest)[k]
                && chunk_map(rest)[k].bundle_id == rest[i].0
                && chunk_map(rest)[k].offset_compressed == prefix_compressed(rest[i].1, j) as u32;
        assert(bs[i] == rest[i]);
        assert(chunk_of(bs[i], j) == chunk_map(bs)[k]);
    } else {
        let j = choose|j: int|
            0 <= j < last.1.len() && last.1[j].id == k && #[trigger] chunk_of(last, j)
                == chunk_map(bs)[k];
        assert(bs[bs.len() - 1] == last);
        assert(chunk_of(bs[bs.len() - 1], j) == chunk_map(bs)[k]);
    }
}

/// No chunk id appears twice across the bundles.
pub open spec fn chunk_ids_unique(bs: Seq<(u64, Seq<BundleChunk>)>) -> bool {
    forall|i1: int, j1: int, i2: int, j2: int|
        0 <= i1 < bs.len() && 0 <= j1 < bs[i1].1.len() && 0 <= i2 < bs.len() && 0 <= j2
            < bs[i2].1.len() && #[trigger] bs[i1].1[j1].id == #[trigger] bs[i2].1[j2].id ==> i1 == i2
            && j1 == j2
}

proof fn lemma_enter_bundle_keeps(m: Map<u64, Chunk>, b: (u64, Seq<BundleChunk>), n: int, k: u64)
    requires
        0 <= n <= b.1.len(),
        forall|j: int| 0 <= j < n ==> (#[trigger] b.1[j]).id != k,
    ensures
        enter_bundle(m, b, n).contains_key(k) == m.contains_key(k),
        m.contains_key(k) ==> enter_bundle(m, b, n)[k] == m[k],
    decreases n,
{
    if n > 0 {
        lemma_enter_bundle_keeps(m, b, n - 1, k);
    }
}

proof fn lemma_enter_bundle_finds(m: Map<u64, Chunk>, b: (u64, Seq<BundleChunk>), n: int, j: int)
    requires
        0 <= j < n <= b.1.len(),
        forall|j2: int| 0 <= j2 < n && j2 != j ==> (#[trigger] b.1[j2]).id != b.1[j].id,
    ensures
        enter_bundle(m, b, n).contains_key(b.1[j].id),
        enter_bundle(m, b, n)[b.1[j].id] == chunk_of(b, j),
    decreases n,
{
    if n > j + 1 {
        lemma_enter_bundle_finds(m, b, n - 1, j);
    }
}

/// When no chunk id repeats, every chunk of every bundle is in the chunk
/// lookup under its id, in its own bundle, with its sizes and at the sum of
/// the compressed sizes before it.
pub proof fn lemma_chunk_map_complete(bs: Seq<(u64, Seq<BundleChunk>)>, i: int, j: int)
    requires
        chunk_ids_unique(bs),
        0 <= i < bs.len(),
        0 <= j < bs[i].1.len(),
    ensures
        chunk_map(bs).contains_key(bs[i].1[j].id),
        chunk_map(bs)[bs[i].1[j].id] == chunk_of(bs[i], j),
    decreases bs.len(),
{
    let rest = bs.drop_last();
    let last = bs.last();
    let k = bs[i].1[j].id;
    if i == bs.len() - 1 {
        assert forall|j2: int| 0 <= j2 < last.1.len() && j2 != j implies (#[trigger] last.1[j2]).id != k by {
            if last.1[j2].id == k {
                assert(bs[bs.len() - 1].1[j2].id == bs[i].1[j].id);
            }
        }
        lemma_enter_bundle_finds(chunk_map(rest), last, last.1.len() as int, j);
    } else {
        assert forall|i1: int, j1: int, i2: int, j2: int|
            0 <= i1 < rest.len() && 0 <= j1 < rest[i1].1.len() && 0 <= i2 < rest.len() && 0 <= j2
                < rest[i2].1.len() && #[trigger] rest[i1].1[j1].id == #[trigger] rest[i2].1[j2].id
            implies i1 == i2 && j1 == j2 by {
            assert(bs[i1] == rest[i1] && bs[i2] == rest[i2]);
            assert(bs[i1].1[j1].id == bs[i2].1[j2].id);
        }
        assert(rest[i] == bs[i]);
        lemma_chunk_map_complete(rest, i, j);
        assert forall|j2: int| 0 <= j2 < last.1.len() implies (#[trigger] last.1[j2]).id != k by {
            if last.1[j2].id == k {
                assert(bs[bs.len() - 1].1[j2].id == bs[i].1[j].id);
            }
        }
        lemma_enter_bundle_keeps(chunk_map(rest), last, last.1.len() as int, k);
    }
}

} // verus!
