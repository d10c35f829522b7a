use rman::dl::{chunk_matches, format_bundle_name};
use rman::{Chunk, DownloadBundle, DownloadChunk, DownloadFile, Error, File, HashType, Manifest};
use std::collections::HashMap;

enum F {
    Absent,
    U8(u8),
    U32(u32),
    U64(u64),
    Ref(usize),
}

struct W {
    buf: Vec<u8>,
}

impl W {
    fn new() -> W {
        W { buf: vec![0; 4] }
    }

    fn string(&mut self, s: &str) -> usize {
        let p = self.buf.len();
        self.buf.extend_from_slice(&(s.len() as u32).to_le_bytes());
        self.buf.extend_from_slice(s.as_bytes());
        p
    }

    fn table(&mut self, fields: &[F]) -> usize {
        let mut offs = Vec::new();
        let mut cur: u16 = 4;
        for f in fields {
            let w = match f {
                F::Absent => 0,
                F::U8(_) => 1,
                F::U32(_) | F::Ref(_) => 4,
                F::U64(_) => 8,
            };
            offs.push(if w == 0 { 0 } else { cur });
            cur += w;
        }
        let vt = self.buf.len();
        self.buf.extend_from_slice(&(4 + 2 * fields.len() as u16).to_le_bytes());
        self.buf.extend_from_slice(&cur.to_le_bytes());
        for o in &offs {
            self.buf.extend_from_slice(&o.to_le_bytes());
        }
        let rec = self.buf.len();
        self.buf.extend_from_slice(&((rec - vt) as i32).to_le_bytes());
        for f in fields {
            let pos = self.buf.len();
            match f {
                F::Absent => {}
                F::U8(v) => self.buf.push(*v),
                F::U32(v) => self.buf.extend_from_slice(&v.to_le_bytes()),
                F::U64(v) => self.buf.extend_from_slice(&v.to_le_bytes()),
                F::Ref(t) => self
                    .buf
                    .extend_from_slice(&((*t as i64 - pos as i64) as i32).to_le_bytes()),
            }
        }
        rec
    }

    fn vec_refs(&mut self, items: &[usize]) -> usize {
        let p = self.buf.len();
        self.buf.extend_from_slice(&(items.len() as u32).to_le_bytes());
        for t in items {
            let slot = self.buf.len();
            self.buf
                .extend_from_slice(&((*t as i64 - slot as i64) as i32).to_le_bytes());
        }
        p
    }

    fn vec_u64(&mut self, items: &[u64]) -> usize {
        let p = self.buf.len();
        self.buf.extend_from_slice(&(items.len() as u32).to_le_bytes());
        for v in items {
            self.buf.extend_from_slice(&v.to_le_bytes());
        }
        p
    }

    fn finish(mut self, root: usize) -> Vec<u8> {
        self.buf[0..4].copy_from_slice(&(root as i32).to_le_bytes());
        self.buf
    }
}

struct TFile {
    id: u64,
    parent: u64,
    size: u32,
    name: &'static str,
    lang_flags: u64,
    chunk_ids: Vec<u64>,
    params_index: u8,
}

#[derive(Default)]
struct TBody {
    bundles: Vec<(u64, Vec<(u64, u32, u32)>)>,
    langs: Vec<(u8, &'static str)>,
    files: Vec<TFile>,
    dirs: Vec<(u64, u64, &'static str)>,
    params: Vec<(u8, u32)>,
}

fn encode_body(b: &TBody) -> Vec<u8> {
    let mut w = W::new();
    let mut bundles = Vec::new();
    for (id, chunks) in &b.bundles {
        let mut cs = Vec::new();
        for (cid, sc, su) in chunks {
            cs.push(w.table(&[F::U64(*cid), F::U32(*sc), F::U32(*su)]));
        }
        let v = w.vec_refs(&cs);
        bundles.push(w.table(&[F::U64(*id), F::Ref(v)]));
    }
    let mut langs = Vec::new();
    for (id, name) in &b.langs {
        let s = w.string(name);
        langs.push(w.table(&[F::U8(*id), F::Ref(s)]));
    }
    let mut files = Vec::new();
    for f in &b.files {
        let name = w.string(f.name);
        let ids = w.vec_u64(&f.chunk_ids);
        files.push(w.table(&[
            F::U64(f.id),
            F::U64(f.parent),
            F::U32(f.size),
            F::Ref(name),
            F::U64(f.lang_flags),
            F::Absent,
            F::Absent,
            F::Ref(ids),
            F::Absent,
            F::Absent,
            F::Absent,
            F::U8(f.params_index),
        ]));
    }
    let mut dirs = Vec::new();
    for (id, parent, name) in &b.dirs {
        let s = w.string(name);
        dirs.push(w.table(&[F::U64(*id), F::U64(*parent), F::Ref(s)]));
    }
    let mut params = Vec::new();
    for (ht, max) in &b.params {
        params.push(w.table(&[F::Absent, F::U8(*ht), F::Absent, F::Absent, F::U32(*max)]));
    }
    let vb = w.vec_refs(&bundles);
    let vl = w.vec_refs(&langs);
    let vf = w.vec_refs(&files);
    let vd = w.vec_refs(&dirs);
    let vp = w.vec_refs(&params);
    let root = w.table(&[F::Ref(vb), F::Ref(vl), F::Ref(vf), F::Ref(vd), F::Absent, F::Ref(vp)]);
    w.finish(root)
}

fn wrap(body: &[u8], offset: u32, checksum: u64) -> Vec<u8> {
    let compressed = zstd::stream::encode_all(body, 0).unwrap();
    let mut out = Vec::new();
    out.extend_from_slice(b"RMAN");
    out.extend_from_slice(&[2, 0]);
    out.extend_from_slice(&0u16.to_le_bytes());
    out.extend_from_slice(&offset.to_le_bytes());
    out.extend_from_slice(&(compressed.len() as u32).to_le_bytes());
    out.extend_from_slice(&checksum.to_le_bytes());
    out.extend_from_slice(&(body.len() as u32).to_le_bytes());
    while out.len() < offset as usize {
        out.push(0xEE);
    }
    out.extend_from_slice(&compressed);
    out
}

fn simple_file(id: u64, parent: u64, name: &'static str, chunk_ids: Vec<u64>, size: u32) -> TFile {
    TFile { id, parent, size, name, lang_flags: 0, chunk_ids, params_index: 0 }
}

fn root_dirs() -> Vec<(u64, u64, &'static str)> {
    vec![(1, 0, "")]
}

fn read_body(b: &TBody) -> Result<Manifest, Error> {
    Manifest::read(&wrap(&encode_body(b), 28, 0x1234))
}

/// Plaintexts, compressed forms and ids of the five chunks of the release scenario.
struct Release {
    plains: Vec<Vec<u8>>,
    packed: Vec<Vec<u8>>,
    ids: Vec<u64>,
}

fn release() -> Release {
    let plains: Vec<Vec<u8>> = vec![
        b"alpha alpha alpha alpha".to_vec(),
        b"bravo".to_vec(),
        b"charlie charlie".to_vec(),
        b"delta delta delta delta delta".to_vec(),
        b"echo!".to_vec(),
    ];
    let packed: Vec<Vec<u8>> = plains.iter().map(|p| zstd::stream::encode_all(&p[..], 0).unwrap()).collect();
    let ids = plains.iter().map(|p| HashType::SHA256.compute(p)).collect();
    Release { plains, packed, ids }
}

fn release_body(r: &Release) -> TBody {
    let c = |i: usize| (r.ids[i], r.packed[i].len() as u32, r.plains[i].len() as u32);
    let len = |is: &[usize]| is.iter().map(|&i| r.plains[i].len() as u32).sum::<u32>();
    TBody {
        bundles: vec![(0xA1, vec![c(0), c(1), c(2)]), (0xB2, vec![c(3), c(4)])],
        langs: vec![(1, "en_us")],
        files: vec![
            TFile {
                id: 10,
                parent: 1,
                size: len(&[0, 1, 0]),
                name: "one.bin",
                lang_flags: 1,
                chunk_ids: vec![r.ids[0], r.ids[1], r.ids[0]],
                params_index: 0,
            },
            TFile {
                id: 11,
                parent: 1,
                size: len(&[2, 0]),
                name: "two.bin",
                lang_flags: 1,
                chunk_ids: vec![r.ids[2], r.ids[0]],
                params_index: 0,
            },
            TFile {
                id: 12,
                parent: 1,
                size: len(&[3, 4]),
                name: "three.bin",
                lang_flags: 0,
                chunk_ids: vec![r.ids[3], r.ids[4]],
                params_index: 0,
            },
        ],
        dirs: root_dirs(),
        params: vec![(2, 1 << 20)],
    }
}

fn bundle_bytes(r: &Release) -> HashMap<u64, Vec<u8>> {
    let mut m = HashMap::new();
    m.insert(0xA1, [r.packed[0].clone(), r.packed[1].clone(), r.packed[2].clone()].concat());
    m.insert(0xB2, [r.packed[3].clone(), r.packed[4].clone()].concat());
    m
}

/// Carries out a plan against in-memory bundles, writing into `out`.
fn apply(plan: &DownloadFile, bundles: &HashMap<u64, Vec<u8>>, out: &mut Vec<u8>) {
    for (id, b) in &plan.bundles {
        let r = b.get_range();
        let data = &bundles[id][r.start as usize..r.end as usize];
        for (oc, c) in &b.offset_compressed {
            let start = (oc - r.start) as usize;
            let plain = zstd::stream::decode_all(&data[start..start + c.size_compressed as usize]).unwrap();
            for t in &c.offset_uncompressed {
                let t = *t as usize;
                if out.len() < t + plain.len() {
                    out.resize(t + plain.len(), 0);
                }
                out[t..t + plain.len()].copy_from_slice(&plain);
            }
        }
    }
    out.resize(plan.size as usize, 0);
}

fn langs_of(f: &File) -> Vec<String> {
    let mut v = f.langs.clone();
    v.sort();
    v
}

#[test]
fn round_trip_download_verify_and_skip() {
    let r = release();
    let m = read_body(&release_body(&r)).unwrap();
    assert_eq!(m.id, 0x1234);
    assert_eq!(m.files.len(), 3);
    let bundles = bundle_bytes(&r);
    for f in &m.files {
        assert_eq!(f.hash_type, HashType::SHA256);
        let plan = f.download_all();
        let mut out = Vec::new();
        apply(&plan, &bundles, &mut out);
        assert_eq!(out.len(), f.size as usize);
        assert!(f.verify(&out));
        let again = f.download_checked(&out);
        assert!(again.bundles.is_empty());
        assert_eq!(again.get_total_size(), 0);
    }
    let one = &m.files[0];
    let expected = [r.plains[0].clone(), r.plains[1].clone(), r.plains[0].clone()].concat();
    let mut out = Vec::new();
    apply(&one.download_all(), &bundles, &mut out);
    assert_eq!(out, expected);
    assert_eq!(langs_of(one), vec!["en_us".to_string()]);
    assert_eq!(langs_of(&m.files[2]), vec!["none".to_string()]);
}

#[test]
fn shared_chunk_is_fetched_once_and_scattered() {
    let r = release();
    let m = read_body(&release_body(&r)).unwrap();
    let plan = m.files[0].download_all();
    assert_eq!(plan.bundles.len(), 1);
    let (id, b) = &plan.bundles[0];
    assert_eq!(*id, 0xA1);
    assert_eq!(b.name, "00000000000000A1.bundle");
    assert_eq!(b.offset_compressed.len(), 2);
    let (oc0, c0) = &b.offset_compressed[0];
    assert_eq!(*oc0, 0);
    let a = r.plains[0].len() as u32;
    let bl = r.plains[1].len() as u32;
    assert_eq!(c0.offset_uncompressed, vec![0, a + bl]);
    let (oc1, c1) = &b.offset_compressed[1];
    assert_eq!(*oc1, r.packed[0].len() as u32);
    assert_eq!(c1.offset_uncompressed, vec![a]);
    let range = b.get_range();
    assert_eq!(range, 0..(r.packed[0].len() + r.packed[1].len()) as u32);
    assert_eq!(plan.get_total_size(), (r.packed[0].len() + r.packed[1].len()) as u32);
}

#[test]
fn chunk_offsets_are_prefix_sums() {
    let r = release();
    let m = read_body(&release_body(&r)).unwrap();
    let two = &m.files[1];
    assert_eq!(two.chunks[0].offset_compressed, (r.packed[0].len() + r.packed[1].len()) as u32);
    assert_eq!(two.chunks[0].offset_uncompressed, 0);
    assert_eq!(two.chunks[1].offset_compressed, 0);
    assert_eq!(two.chunks[1].offset_uncompressed, r.plains[2].len() as u32);
    let three = &m.files[2];
    assert_eq!(three.chunks[1].offset_compressed, r.packed[3].len() as u32);
    assert_eq!(three.chunks[1].bundle_id, 0xB2);
    let last = three.chunks[1];
    assert_eq!(last.offset_uncompressed + last.size_uncompressed, three.size);
}

#[test]
fn decoding_twice_gives_equal_catalogs() {
    let r = release();
    let bytes = wrap(&encode_body(&release_body(&r)), 28, 77);
    let a = Manifest::read(&bytes).unwrap();
    let b = Manifest::read(&bytes).unwrap();
    assert_eq!(a.id, b.id);
    assert_eq!(a.files.len(), b.files.len());
    for (x, y) in a.files.iter().zip(b.files.iter()) {
        assert_eq!(x.id, y.id);
        assert_eq!(x.name, y.name);
        assert_eq!(x.size, y.size);
        assert_eq!(langs_of(x), langs_of(y));
        assert_eq!(x.chunks, y.chunks);
    }
}

#[test]
fn corrupted_chunk_fails_verify_and_is_replanned_alone() {
    let r = release();
    let m = read_body(&release_body(&r)).unwrap();
    let bundles = bundle_bytes(&r);
    let three = &m.files[2];
    let mut out = Vec::new();
    apply(&three.download_all(), &bundles, &mut out);
    assert!(three.verify(&out));
    let at = r.plains[3].len() + 1;
    out[at] ^= 0xFF;
    assert!(!three.verify(&out));
    let plan = three.download_checked(&out);
    assert_eq!(plan.bundles.len(), 1);
    let (id, b) = &plan.bundles[0];
    assert_eq!(*id, 0xB2);
    assert_eq!(b.offset_compressed.len(), 1);
    assert_eq!(b.offset_compressed[0].0, r.packed[3].len() as u32);
    assert_eq!(b.offset_compressed[0].1.offset_uncompressed, vec![r.plains[3].len() as u32]);
    apply(&plan, &bundles, &mut out);
    assert!(three.verify(&out));
}

#[test]
fn short_copy_on_disk_is_not_intact() {
    let r = release();
    let m = read_body(&release_body(&r)).unwrap();
    let three = &m.files[2];
    assert!(!three.verify(&r.plains[3]));
    let plan = three.download_checked(&r.plains[3]);
    assert_eq!(plan.bundles[0].1.offset_compressed.len(), 1);
    assert!(chunk_matches(&r.plains[3], three.chunks[0], HashType::SHA256));
}

#[test]
fn directory_nesting_composes_path() {
    let body = TBody {
        files: vec![simple_file(42, 7, "file.bin", vec![], 0)],
        dirs: vec![(7, 5, "c"), (5, 3, "b"), (3, 1, "a"), (1, 0, "")],
        params: vec![(0, 0)],
        ..Default::default()
    };
    let m = read_body(&body).unwrap();
    assert_eq!(m.files[0].name, "a/b/c/file.bin");
    assert_eq!(m.files[0].id, 42);
}

#[test]
fn file_in_root_keeps_its_name() {
    let body = TBody {
        files: vec![simple_file(5, 1, "top.txt", vec![], 0)],
        dirs: root_dirs(),
        params: vec![(0, 0)],
        ..Default::default()
    };
    assert_eq!(read_body(&body).unwrap().files[0].name, "top.txt");
}

#[test]
fn language_selection() {
    let mut none = simple_file(1, 1, "a", vec![], 0);
    none.lang_flags = 0;
    let mut two = simple_file(2, 1, "b", vec![], 0);
    two.lang_flags = 0b101;
    let body = TBody {
        langs: vec![(1, "EN"), (3, "FR")],
        files: vec![none, two],
        dirs: root_dirs(),
        params: vec![(0, 0)],
        ..Default::default()
    };
    let m = read_body(&body).unwrap();
    assert_eq!(langs_of(&m.files[0]), vec!["none".to_string()]);
    assert_eq!(langs_of(&m.files[1]), vec!["en".to_string(), "fr".to_string()]);
}

#[test]
fn equal_language_names_appear_once() {
    let mut f = simple_file(2, 1, "b", vec![], 0);
    f.lang_flags = 0b11;
    let body = TBody {
        langs: vec![(1, "EN"), (2, "en")],
        files: vec![f],
        dirs: root_dirs(),
        params: vec![(0, 0)],
        ..Default::default()
    };
    assert_eq!(read_body(&body).unwrap().files[0].langs, vec!["en".to_string()]);
}

#[test]
fn unknown_language_is_rejected() {
    let mut f = simple_file(2, 1, "b", vec![], 0);
    f.lang_flags = 0b10;
    let body = TBody {
        langs: vec![(1, "EN")],
        files: vec![f],
        dirs: root_dirs(),
        params: vec![(0, 0)],
        ..Default::default()
    };
    assert_eq!(read_body(&body).unwrap_err(), Error::LangNotFound);
}

#[test]
fn body_offset_inside_header_is_rejected() {
    let body = encode_body(&TBody::default());
    let mut bytes = wrap(&body, 28, 0);
    bytes[8..12].copy_from_slice(&20u32.to_le_bytes());
    assert_eq!(Manifest::read(&bytes).unwrap_err(), Error::BodyOffset);
}

#[test]
fn gap_after_header_is_skipped() {
    let body = TBody { files: vec![simple_file(3, 1, "x", vec![], 0)], dirs: root_dirs(), params: vec![(0, 0)], ..Default::default() };
    let m = Manifest::read(&wrap(&encode_body(&body), 40, 9)).unwrap();
    assert_eq!(m.id, 9);
    assert_eq!(m.files[0].name, "x");
}

#[test]
fn oversized_chunk_limit_is_rejected() {
    let body = TBody { params: vec![(0, 64 * 1024 * 1024)], ..Default::default() };
    assert_eq!(read_body(&body).unwrap_err(), Error::ChunkLimit);
}

#[test]
fn chunk_limit_at_bound_is_accepted() {
    let body = TBody { params: vec![(0, 32 * 1024 * 1024)], ..Default::default() };
    assert!(read_body(&body).is_ok());
}

#[test]
fn compressed_offset_overflow_is_rejected() {
    let body = TBody {
        bundles: vec![(1, vec![(5, 0x8000_0000, 1), (6, 0x8000_0000, 1)])],
        ..Default::default()
    };
    assert_eq!(read_body(&body).unwrap_err(), Error::CompressedOffsetOverflow);
}

#[test]
fn compressed_offsets_up_to_the_limit_are_accepted() {
    let body = TBody {
        bundles: vec![(1, vec![(5, 0x8000_0000, 1), (6, 0x7FFF_FFFF, 1)])],
        ..Default::default()
    };
    assert!(read_body(&body).is_ok());
}

#[test]
fn directory_cycle_is_detected() {
    let body = TBody {
        files: vec![simple_file(9, 1, "f", vec![], 0)],
        dirs: vec![(1, 2, "one"), (2, 1, "two")],
        params: vec![(0, 0)],
        ..Default::default()
    };
    assert_eq!(read_body(&body).unwrap_err(), Error::DirCycle);
}

#[test]
fn cycle_above_the_parent_is_detected() {
    let body = TBody {
        files: vec![simple_file(9, 1, "f", vec![], 0)],
        dirs: vec![(1, 2, "one"), (2, 3, "two"), (3, 2, "three")],
        params: vec![(0, 0)],
        ..Default::default()
    };
    assert_eq!(read_body(&body).unwrap_err(), Error::DirCycle);
}

#[test]
fn missing_directory_is_rejected() {
    let body = TBody {
        files: vec![simple_file(9, 4, "f", vec![], 0)],
        dirs: root_dirs(),
        params: vec![(0, 0)],
        ..Default::default()
    };
    assert_eq!(read_body(&body).unwrap_err(), Error::DirNotFound);
}

#[test]
fn zero_ids_are_rejected() {
    let b = TBody { bundles: vec![(0, vec![])], ..Default::default() };
    assert_eq!(read_body(&b).unwrap_err(), Error::ZeroBundleId);
    let c = TBody { bundles: vec![(1, vec![(0, 1, 1)])], ..Default::default() };
    assert_eq!(read_body(&c).unwrap_err(), Error::ZeroChunkId);
    let f = TBody { files: vec![simple_file(0, 1, "f", vec![], 0)], dirs: root_dirs(), ..Default::default() };
    assert_eq!(read_body(&f).unwrap_err(), Error::ZeroFileId);
}

#[test]
fn bad_names_are_rejected() {
    let dot = TBody { dirs: vec![(1, 0, "..")], ..Default::default() };
    assert_eq!(read_body(&dot).unwrap_err(), Error::DotName);
    let slash = TBody { langs: vec![(1, "a/b")], ..Default::default() };
    assert_eq!(read_body(&slash).unwrap_err(), Error::IllegalChar);
    let f = TBody { files: vec![simple_file(1, 1, ".", vec![], 0)], dirs: root_dirs(), ..Default::default() };
    assert_eq!(read_body(&f).unwrap_err(), Error::DotName);
    let ok = TBody { dirs: vec![(1, 0, "My Dir_1.2+x-y")], ..Default::default() };
    assert!(read_body(&ok).is_ok());
}

#[test]
fn unresolved_references_are_rejected() {
    let chunk = TBody {
        files: vec![simple_file(1, 1, "f", vec![77], 5)],
        dirs: root_dirs(),
        params: vec![(0, 100)],
        ..Default::default()
    };
    assert_eq!(read_body(&chunk).unwrap_err(), Error::ChunkNotFound);
    let params = TBody { files: vec![simple_file(1, 1, "f", vec![], 0)], dirs: root_dirs(), ..Default::default() };
    assert_eq!(read_body(&params).unwrap_err(), Error::ParamsNotFound);
    let hash = TBody {
        files: vec![simple_file(1, 1, "f", vec![], 0)],
        dirs: root_dirs(),
        params: vec![(4, 0)],
        ..Default::default()
    };
    assert_eq!(read_body(&hash).unwrap_err(), Error::BadHashType);
}

#[test]
fn chunks_must_fit_their_file() {
    let big = TBody {
        bundles: vec![(1, vec![(5, 3, 10)])],
        files: vec![simple_file(1, 1, "f", vec![5], 10)],
        dirs: root_dirs(),
        params: vec![(0, 9)],
        ..Default::default()
    };
    assert_eq!(read_body(&big).unwrap_err(), Error::ChunkTooBig);
    let outside = TBody {
        bundles: vec![(1, vec![(5, 3, 10)])],
        files: vec![simple_file(1, 1, "f", vec![5, 5], 15)],
        dirs: root_dirs(),
        params: vec![(0, 10)],
        ..Default::default()
    };
    assert_eq!(read_body(&outside).unwrap_err(), Error::ChunkOutsideFile);
    let overflow = TBody {
        bundles: vec![(1, vec![(5, 3, 0x8000_0000)])],
        files: vec![simple_file(1, 1, "f", vec![5, 5], 10)],
        dirs: root_dirs(),
        params: vec![(0, 10)],
        ..Default::default()
    };
    assert_eq!(read_body(&overflow).unwrap_err(), Error::UncompressedOffsetOverflow);
}

#[test]
fn truncated_inputs_are_rejected() {
    assert_eq!(Manifest::read(&[0u8; 27]).unwrap_err(), Error::HeaderShort);
    let mut bytes = wrap(&encode_body(&TBody::default()), 28, 0);
    bytes.pop();
    assert_eq!(Manifest::read(&bytes).unwrap_err(), Error::BodyShort);
    let mut garbage = wrap(&encode_body(&TBody::default()), 28, 0);
    let n = garbage.len();
    garbage[28..n].fill(0x42);
    assert_eq!(Manifest::read(&garbage).unwrap_err(), Error::Decompress);
}

#[test]
fn every_single_byte_mutation_is_handled() {
    let r = release();
    let bytes = wrap(&encode_body(&release_body(&r)), 28, 1);
    let body = encode_body(&release_body(&r));
    for i in 0..body.len() {
        for flip in [0x01u8, 0x80, 0xFF] {
            let mut b = body.clone();
            b[i] ^= flip;
            let _ = Manifest::read(&wrap(&b, 28, 1));
        }
    }
    assert!(Manifest::read(&bytes).is_ok());
}

#[test]
fn empty_plan_has_empty_range() {
    let b = DownloadBundle { name: String::new(), offset_compressed: vec![] };
    assert_eq!(b.get_range(), 0..0);
    let f = DownloadFile::default();
    assert_eq!(f.get_total_size(), 0);
}

#[test]
fn range_spans_first_to_last_chunk_end() {
    let c = |sc: u32| DownloadChunk { size_compressed: sc, size_uncompressed: 1, offset_uncompressed: vec![0] };
    let b = DownloadBundle { name: String::new(), offset_compressed: vec![(100, c(10)), (150, c(20))] };
    assert_eq!(b.get_range(), 100..170);
    let f = DownloadFile { name: String::new(), size: 0, max_uncompressed: 0, bundles: vec![(1, b.clone()), (2, b)] };
    assert_eq!(f.get_total_size(), 140);
}

#[test]
fn download_if_keeps_only_flagged_chunks() {
    let chunk = |id: u64, bundle: u64, oc: u32, ou: u32| Chunk {
        chunk_id: id,
        bundle_id: bundle,
        size_compressed: 4,
        size_uncompressed: 8,
        offset_compressed: oc,
        offset_uncompressed: ou,
    };
    let f = File {
        id: 1,
        name: "f".to_string(),
        link_name: String::new(),
        size: 32,
        max_uncompressed: 8,
        hash_type: HashType::NONE,
        langs: vec![],
        chunks: vec![chunk(1, 0xFF, 4, 0), chunk(2, 0x10, 0, 8), chunk(3, 0xFF, 0, 16), chunk(1, 0xFF, 4, 24)],
    };
    let plan = f.download_if(&[true, false, true, true]);
    assert_eq!(plan.name, "f");
    assert_eq!(plan.size, 32);
    assert_eq!(plan.bundles.len(), 1);
    let (id, b) = &plan.bundles[0];
    assert_eq!(*id, 0xFF);
    assert_eq!(b.name, "00000000000000FF.bundle");
    let keys: Vec<u32> = b.offset_compressed.iter().map(|e| e.0).collect();
    assert_eq!(keys, vec![0, 4]);
    assert_eq!(b.offset_compressed[1].1.offset_uncompressed, vec![0, 24]);
    assert!(f.download_if(&[false, false, false, false]).bundles.is_empty());
    assert_eq!(f.download_all().bundles.len(), 2);
}

#[test]
fn chunk_decompression() {
    let plain = b"some chunk plaintext".to_vec();
    let mut packed = zstd::stream::encode_all(&plain[..], 0).unwrap();
    let c = DownloadChunk { size_compressed: packed.len() as u32, size_uncompressed: plain.len() as u32, offset_uncompressed: vec![0] };
    packed.extend_from_slice(b"next chunk");
    assert_eq!(c.decompress_from(&packed), Ok(plain));
    assert_eq!(c.decompress_from(&packed[..3]), Err(Error::ChunkDataShort));
    assert_eq!(c.decompress_from(&[0x42u8; 64]), Err(Error::Decompress));
}

#[test]
fn bundle_names_are_sixteen_uppercase_hex_digits() {
    assert_eq!(format_bundle_name(0x0123456789ABCDEF), "0123456789ABCDEF.bundle");
    assert_eq!(format_bundle_name(0), "0000000000000000.bundle");
    assert_eq!(format_bundle_name(u64::MAX), "FFFFFFFFFFFFFFFF.bundle");
}
