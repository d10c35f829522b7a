//! Download plans: which compressed byte ranges to fetch from each bundle,
//! and where each chunk's plaintext goes in the reconstructed file.
use crate::catalog::{Chunk, File};
use crate::error::Error;
use crate::hash::{hash_of, HashType};
use crate::raw::{zstd_decode, zstd_decoded};
use std::ops::Range;
use vstd::prelude::*;
use vstd::slice::slice_subrange;
use vstd::string::StringExecFns;

verus! {

/// One chunk to fetch: its sizes and every file offset its plaintext goes to.
#[derive(Clone, Debug, Default)]
pub struct DownloadChunk {
    pub size_compressed: u32,
    pub size_uncompressed: u32,
    pub offset_uncompressed: Vec<u32>,
}

/// One bundle to fetch from: its file name on the CDN and its chunks keyed by
/// compressed offset, in increasing order.
#[derive(Clone, Debug, Default)]
pub struct DownloadBundle {
    pub name: String,
    pub offset_compressed: Vec<(u32, DownloadChunk)>,
}

/// The plan for one file: its bundles keyed by bundle id.
#[derive(Clone, Debug, Default)]
pub struct DownloadFile {
    pub name: String,
    pub size: u32,
    pub max_uncompressed: u32,
    pub bundles: Vec<(u64, DownloadBundle)>,
}

/// Each element is smaller than the next.
pub open spec fn strictly_sorted(s: Seq<u32>) -> bool {
    forall|i: int, j: int| 0 <= i < j < s.len() ==> s[i] < s[j]
}

/// The compressed offsets that a bundle's entries are keyed by.
pub open spec fn entry_keys(s: Seq<(u32, DownloadChunk)>) -> Seq<u32> {
    s.map_values(|e: (u32, DownloadChunk)| e.0)
}

/// The bundle ids of a plan's entries.
pub open spec fn bundle_ids(s: Seq<(u64, DownloadBundle)>) -> Seq<u64> {
    s.map_values(|e: (u64, DownloadBundle)| e.0)
}

/// Chunk `i` is kept, lies in bundle `b` and starts at compressed offset `o`.
pub open spec fn kept_at(cs: Seq<Chunk>, keep: Seq<bool>, b: u64, o: u32, i: int) -> bool {
    keep[i] && cs[i].bundle_id == b && cs[i].offset_compressed == o
}

/// Chunk `i` is the first kept chunk of bundle `b` at compressed offset `o`.
pub open spec fn first_at(cs: Seq<Chunk>, keep: Seq<bool>, b: u64, o: u32, i: int) -> bool {
    0 <= i < cs.len() && kept_at(cs, keep, b, o, i) && forall|j: int|
        0 <= j < i ==> !#[trigger] kept_at(cs, keep, b, o, j)
}

/// Bundles of the kept chunks among the first `n`.
pub open spec fn kept_bundles(cs: Seq<Chunk>, keep: Seq<bool>, n: int) -> Set<u64> {
    Set::new(|b: u64| exists|i: int| 0 <= i < n && #[trigger] keep[i] && cs[i].bundle_id == b)
}

/// Compressed offsets of the kept chunks of bundle `b` among the first `n`.
pub open spec fn kept_offsets(cs: Seq<Chunk>, keep: Seq<bool>, b: u64, n: int) -> Set<u32> {
    Set::new(
        |o: u32|
            exists|i: int| 0 <= i < n && #[trigger] keep[i] && cs[i].bundle_id == b && cs[i].offset_compressed == o,
    )
}

/// File offsets of the kept chunks of bundle `b` at compressed offset `o`
/// among the first `n`: the scatter set.
pub open spec fn kept_targets(cs: Seq<Chunk>, keep: Seq<bool>, b: u64, o: u32, n: int) -> Set<
    u32,
> {
    Set::new(
        |t: u32|
            exists|i: int|
                0 <= i < n && #[trigger] kept_at(cs, keep, b, o, i) && cs[i].offset_uncompressed == t,
    )
}

/// The uppercase hexadecimal digit of `n`.
pub open spec fn hex_upper(n: int) -> char {
    seq!['0', '1', '2', '3', '4', '5', '6', '7', '8', '9', 'A', 'B', 'C', 'D', 'E', 'F'][n]
}

/// A bundle's file name: its id as 16 uppercase hex digits, then `.bundle`.
pub open spec fn bundle_name(id: u64) -> Seq<char> {
    Seq::new(16, |i: int| hex_upper(((id >> ((60 - 4 * i) as u64)) & 0xf) as int)) + seq![
        '.',
        'b',
        'u',
        'n',
        'd',
        'l',
        'e',
    ]
}

/// The uppercase hexadecimal digit of `n` as a one-character string.
fn hex_digit(n: u64) -> (r: &'static str)
    requires
        n < 16,
    ensures
        r@ == seq![hex_upper(n as int)],
{
    match n {
        0 => {
            proof {
                reveal_strlit("0");
            }
            "0"
        },
        1 => {
            proof {
                reveal_strlit("1");
            }
            "1"
        },
        2 => {
            proof {
                reveal_strlit("2");
            }
            "2"
        },
        3 => {
            proof {
                reveal_strlit("3");
            }
            "3"
        },
        4 => {
            proof {
                reveal_strlit("4");
            }
            "4"
        },
        5 => {
            proof {
                reveal_strlit("5");
            }
            "5"
        },
        6 => {
            proof {
                reveal_strlit("6");
            }
            "6"
        },
        7 => {
            proof {
                reveal_strlit("7");
            }
            "7"
        },
        8 => {
            proof {
                reveal_strlit("8");
            }
            "8"
        },
        9 => {
            proof {
                reveal_strlit("9");
            }
            "9"
        },
        10 => {
            proof {
                reveal_strlit("A");
            }
            "A"
        },
        11 => {
            proof {
                reveal_strlit("B");
            }
            "B"
        },
        12 => {
            proof {
                reveal_strlit("C");
            }
            "C"
        },
        13 => {
            proof {
                reveal_strlit("D");
            }
            "D"
        },
        14 => {
            proof {
                reveal_strlit("E");
            }
            "E"
        },
        _ => {
            proof {
                reveal_strlit("F");
            }
            "F"
        },
    }
}

/// A bundle's file name on the CDN.
pub fn format_bundle_name(id: u64) -> (r: String)
    ensures
        r@ == bundle_name(id),
{
    let mut name = String::new();
    let mut i: u64 = 0;
    while i < 16
        invariant
            i <= 16,
            name@ =~= Seq::new(i as nat, |k: int| hex_upper(((id >> ((60 - 4 * k) as u64)) & 0xf) as int)),
        decreases 16 - i,
    {
        let shift: u64 = 60 - 4 * i;
        let nibble = (id >> shift) & 0xf;
        assert(nibble < 16) by (bit_vector)
            requires
                nibble == (id >> shift) & 0xf,
        ;
        name.append(hex_digit(nibble));
        i = i + 1;
    }
    name.append(".bundle");
    proof {
        reveal_strlit(".bundle");
        assert(name@ =~= bundle_name(id));
    }
    name
}

/// The plan entry for bundle `b`, offset `o` is what the kept chunks ask for.
pub open spec fn chunk_planned(cs: Seq<Chunk>, keep: Seq<bool>, b: u64, o: u32, c: DownloadChunk) -> bool {
    &&& strictly_sorted(c.offset_uncompressed@)
    &&& c.offset_uncompressed@.to_set() == kept_targets(cs, keep, b, o, cs.len() as int)
    &&& exists|i: int|
        #[trigger] first_at(cs, keep, b, o, i) && c.size_compressed == cs[i].size_compressed
            && c.size_uncompressed == cs[i].size_uncompressed
}

/// The plan for bundle `b` covers exactly its kept chunks.
pub open spec fn bundle_planned(cs: Seq<Chunk>, keep: Seq<bool>, b: u64, d: DownloadBundle) -> bool {
    &&& d.name@ == bundle_name(b)
    &&& strictly_sorted(entry_keys(d.offset_compressed@))
    &&& entry_keys(d.offset_compressed@).to_set() == kept_offsets(cs, keep, b, cs.len() as int)
    &&& forall|j: int|
        0 <= j < d.offset_compressed@.len() ==> chunk_planned(
            cs,
            keep,
            b,
            (#[trigger] d.offset_compressed@[j]).0,
            d.offset_compressed@[j].1,
        )
}

/// The plan covers exactly the kept chunks, one entry per bundle.
pub open spec fn file_planned(cs: Seq<Chunk>, keep: Seq<bool>, d: DownloadFile) -> bool {
    &&& bundle_ids(d.bundles@).no_duplicates()
    &&& bundle_ids(d.bundles@).to_set() == kept_bundles(cs, keep, cs.len() as int)
    &&& forall|j: int|
        0 <= j < d.bundles@.len() ==> bundle_planned(
            cs,
            keep,
            (#[trigger] d.bundles@[j]).0,
            d.bundles@[j].1,
        )
}

/// The `size_uncompressed` bytes at `offset_uncompressed` of `data` are
/// there and hash to the chunk's id.
pub open spec fn chunk_intact(data: Seq<u8>, c: Chunk, t: HashType) -> bool {
    c.offset_uncompressed + c.size_uncompressed <= data.len() && hash_of(
        t,
        data.subrange(
            c.offset_uncompressed as int,
            c.offset_uncompressed + c.size_uncompressed,
        ),
    ) == c.chunk_id
}

/// Whether `v` holds `x`.
fn contains_id(v: &Vec<u64>, x: u64) -> (r: bool)
    ensures
        r == v@.contains(x),
{
    let mut i: usize = 0;
    while i < v.len()
        invariant
            i <= v@.len(),
            forall|k: int| 0 <= k < i ==> v@[k] != x,
        decreases v@.len() - i,
    {
        if v[i] == x {
            assert(v@[i as int] == x);
            return true;
        }
        i = i + 1;
    }
    false
}

/// Adds `x` to the strictly sorted `v`, keeping it strictly sorted.
fn insert_sorted(v: &mut Vec<u32>, x: u32)
    requires
        strictly_sorted(old(v)@),
    ensures
        strictly_sorted(final(v)@),
        final(v)@.to_set() == old(v)@.to_set().insert(x),
{
    let mut i: usize = 0;
    while i < v.len() && v[i] < x
        invariant
            i <= v@.len(),
            forall|k: int| 0 <= k < i ==> v@[k] < x,
        decreases v@.len() - i,
    {
        i = i + 1;
    }
    if i < v.len() && v[i] == x {
        assert(v@.to_set() =~= v@.to_set().insert(x)) by {
            assert(v@[i as int] == x);
        }
        return;
    }
    let ghost before = v@;
    v.insert(i, x);
    assert(v@.to_set() =~= before.to_set().insert(x)) by {
        assert forall|y: u32| v@.to_set().contains(y) implies before.to_set().insert(x).contains(y) by {
            let k = choose|k: int| 0 <= k < v@.len() && v@[k] == y;
            if k < i {
                assert(before[k] == y);
            } else if k > i {
                assert(before[k - 1] == y);
            }
        }
        assert forall|y: u32| before.to_set().insert(x).contains(y) implies v@.to_set().contains(y) by {
            if y == x {
                assert(v@[i as int] == x);
            } else {
                let k = choose|k: int| 0 <= k < before.len() && before[k] == y;
                if k < i {
                    assert(v@[k] == y);
                } else {
                    assert(v@[k + 1] == y);
                }
            }
        }
    }
}

/// The bundles of the kept chunks, each once, in order of first appearance.
fn collect_bundle_ids(cs: &Vec<Chunk>, keep: &[bool]) -> (r: Vec<u64>)
    requires
        keep@.len() == cs@.len(),
    ensures
        r@.no_duplicates(),
        r@.to_set() == kept_bundles(cs@, keep@, cs@.len() as int),
{
    let mut ids: Vec<u64> = Vec::new();
    let mut i: usize = 0;
    assert(ids@.to_set() =~= kept_bundles(cs@, keep@, 0));
    while i < cs.len()
        invariant
            keep@.len() == cs@.len(),
            i <= cs@.len(),
            ids@.no_duplicates(),
            ids@.to_set() == kept_bundles(cs@, keep@, i as int),
        decreases cs@.len() - i,
    {
        let ghost before = ids@;
        if keep[i] {
            let b = cs[i].bundle_id;
            if !contains_id(&ids, b) {
                ids.push(b);
                proof {
                    before.lemma_push_to_set_commute(b);
                }
            } else {
                assert(before.to_set().contains(b));
            }
            assert(kept_bundles(cs@, keep@, i + 1) =~= kept_bundles(cs@, keep@, i as int).insert(b));
        } else {
            assert(kept_bundles(cs@, keep@, i + 1) =~= kept_bundles(cs@, keep@, i as int));
        }
        i = i + 1;
    }
    ids
}

/// The compressed offsets of bundle `b`'s kept chunks, strictly sorted.
fn collect_offsets(cs: &Vec<Chunk>, keep: &[bool], b: u64) -> (r: Vec<u32>)
    requires
        keep@.len() == cs@.len(),
    ensures
        strictly_sorted(r@),
        r@.to_set() == kept_offsets(cs@, keep@, b, cs@.len() as int),
{
    let mut offsets: Vec<u32> = Vec::new();
    let mut i: usize = 0;
    assert(offsets@.to_set() =~= kept_offsets(cs@, keep@, b, 0));
    while i < cs.len()
        invariant
            keep@.len() == cs@.len(),
            i <= cs@.len(),
            strictly_sorted(offsets@),
            offsets@.to_set() == kept_offsets(cs@, keep@, b, i as int),
        decreases cs@.len() - i,
    {
        if keep[i] && cs[i].bundle_id == b {
            let o = cs[i].offset_compressed;
            insert_sorted(&mut offsets, o);
            assert(kept_offsets(cs@, keep@, b, i + 1) =~= kept_offsets(cs@, keep@, b, i as int).insert(o));
        } else {
            assert(kept_offsets(cs@, keep@, b, i + 1) =~= kept_offsets(cs@, keep@, b, i as int));
        }
        i = i + 1;
    }
    offsets
}

/// The plan entry for the kept chunks of bundle `b` at compressed offset `o`.
fn collect_chunk(cs: &Vec<Chunk>, keep: &[bool], b: u64, o: u32) -> (r: DownloadChunk)
    requires
        keep@.len() == cs@.len(),
        exists|i: int| 0 <= i < cs@.len() && #[trigger] kept_at(cs@, keep@, b, o, i),
    ensures
        chunk_planned(cs@, keep@, b, o, r),
{
    let mut targets: Vec<u32> = Vec::new();
    let mut found: bool = false;
    let mut size_compressed: u32 = 0;
    let mut size_uncompressed: u32 = 0;
    let ghost mut first: int = 0;
    let mut i: usize = 0;
    assert(targets@.to_set() =~= kept_targets(cs@, keep@, b, o, 0));
    while i < cs.len()
        invariant
            keep@.len() == cs@.len(),
            i <= cs@.len(),
            strictly_sorted(targets@),
            targets@.to_set() == kept_targets(cs@, keep@, b, o, i as int),
            found <==> exists|k: int| 0 <= k < i && #[trigger] kept_at(cs@, keep@, b, o, k),
            found ==> first_at(cs@, keep@, b, o, first) && first < i && size_compressed
                == cs@[first].size_compressed && size_uncompressed == cs@[first].size_uncompressed,
        decreases cs@.len() - i,
    {
        if keep[i] && cs[i].bundle_id == b && cs[i].offset_compressed == o {
            assert(kept_at(cs@, keep@, b, o, i as int));
            if !found {
                found = true;
                size_compressed = cs[i].size_compressed;
                size_uncompressed = cs[i].size_uncompressed;
                proof {
                    first = i as int;
                }
            }
            let t = cs[i].offset_uncompressed;
            insert_sorted(&mut targets, t);
            assert(kept_targets(cs@, keep@, b, o, i + 1) =~= kept_targets(cs@, keep@, b, o, i as int).insert(t));
        } else {
            assert(!kept_at(cs@, keep@, b, o, i as int));
            assert(kept_targets(cs@, keep@, b, o, i + 1) =~= kept_targets(cs@, keep@, b, o, i as int));
        }
        i = i + 1;
    }
    DownloadChunk { size_compressed, size_uncompressed, offset_uncompressed: targets }
}

/// The plan for the kept chunks of bundle `b`.
fn plan_bundle(cs: &Vec<Chunk>, keep: &[bool], b: u64) -> (r: DownloadBundle)
    requires
        keep@.len() == cs@.len(),
    ensures
        bundle_planned(cs@, keep@, b, r),
{
    let offsets = collect_offsets(cs, keep, b);
    let mut entries: Vec<(u32, DownloadChunk)> = Vec::new();
    let mut j: usize = 0;
    while j < offsets.len()
        invariant
            keep@.len() == cs@.len(),
            j <= offsets@.len(),
            offsets@.to_set() == kept_offsets(cs@, keep@, b, cs@.len() as int),
            entry_keys(entries@) =~= offsets@.take(j as int),
            forall|k: int|
                0 <= k < entries@.len() ==> chunk_planned(
                    cs@,
                    keep@,
                    b,
                    (#[trigger] entries@[k]).0,
                    entries@[k].1,
                ),
        decreases offsets@.len() - j,
    {
        let o = offsets[j];
        proof {
            assert(offsets@.to_set().contains(o)) by {
                assert(offsets@[j as int] == o);
            }
            assert(kept_offsets(cs@, keep@, b, cs@.len() as int).contains(o));
            let i = choose|i: int|
                0 <= i < cs@.len() && #[trigger] keep@[i] && cs@[i].bundle_id == b
                    && cs@[i].offset_compressed == o;
            assert(kept_at(cs@, keep@, b, o, i));
        }
        let c = collect_chunk(cs, keep, b, o);
        let ghost before = entries@;
        entries.push((o, c));
        assert(entry_keys(entries@) =~= entry_keys(before).push(o));
        assert(offsets@.take(j + 1) =~= offsets@.take(j as int).push(o));
        j = j + 1;
    }
    assert(offsets@.take(j as int) =~= offsets@);
    DownloadBundle { name: format_bundle_name(b), offset_compressed: entries }
}

impl DownloadChunk {
    /// The plaintext of this chunk, whose compressed bytes start `src`.
    pub fn decompress_from(&self, src: &[u8]) -> (r: Result<Vec<u8>, Error>)
        ensures
            match r {
                Ok(v) => self.size_compressed <= src@.len() && zstd_decoded(
                    src@.subrange(0, self.size_compressed as int),
                ) == Some(v@),
                Err(e) => (self.size_compressed > src@.len() && e == Error::ChunkDataShort) || (
                self.size_compressed <= src@.len() && zstd_decoded(
                    src@.subrange(0, self.size_compressed as int),
                ) is None && e == Error::Decompress),
            },
    {
        if (src.len() as u64) < self.size_compressed as u64 {
            return Err(Error::ChunkDataShort);
        }
        match zstd_decode(slice_subrange(src, 0, self.size_compressed as usize)) {
            Some(v) => Ok(v),
            None => Err(Error::Decompress),
        }
    }
}

impl DownloadBundle {
    /// The first compressed offset and the last chunk's end: no entries, no range.
    pub open spec fn spec_range(&self) -> (int, int) {
        if self.offset_compressed@.len() == 0 {
            (0, 0)
        } else {
            (
                self.offset_compressed@[0].0 as int,
                self.offset_compressed@.last().0 + self.offset_compressed@.last().1.size_compressed,
            )
        }
    }

    /// The byte range of the bundle that holds every planned chunk.
    pub fn get_range(&self) -> (r: Range<u32>)
        requires
            self.offset_compressed@.len() > 0 ==> self.offset_compressed@.last().0
                + self.offset_compressed@.last().1.size_compressed <= u32::MAX,
        ensures
            r.start == self.spec_range().0,
            r.end == self.spec_range().1,
    {
        let n = self.offset_compressed.len();
        if n == 0 {
            0..0
        } else {
            let first = self.offset_compressed[0].0;
            let last = &self.offset_compressed[n - 1];
            first..last.0 + last.1.size_compressed
        }
    }
}

/// Sum of the range lengths of the first `n` bundles.
pub open spec fn total_size(bs: Seq<(u64, DownloadBundle)>, n: int) -> int
    decreases n,
{
    if n <= 0 || n > bs.len() {
        0
    } else {
        total_size(bs, n - 1) + bs[n - 1].1.spec_range().1 - bs[n - 1].1.spec_range().0
    }
}

/// A bundle's planned chunks end within 32 bits and its range is not reversed.
pub open spec fn range_ok(d: DownloadBundle) -> bool {
    d.offset_compressed@.len() > 0 ==> d.offset_compressed@.last().0
        + d.offset_compressed@.last().1.size_compressed <= u32::MAX && d.offset_compressed@[0].0
        <= d.offset_compressed@.last().0
}

impl DownloadFile {
    /// The number of compressed bytes that fetching every bundle transfers,
    /// truncated to 32 bits.
    pub fn get_total_size(&self) -> (r: u32)
        requires
            forall|j: int| 0 <= j < self.bundles@.len() ==> range_ok(#[trigger] self.bundles@[j].1),
            self.bundles@.len() <= u32::MAX,
        ensures
            r == total_size(self.bundles@, self.bundles@.len() as int) as u32,
    {
        let mut total: u64 = 0;
        let mut i: usize = 0;
        while i < self.bundles.len()
            invariant
                i <= self.bundles@.len(),
                self.bundles@.len() <= u32::MAX,
                forall|j: int| 0 <= j < self.bundles@.len() ==> range_ok(#[trigger] self.bundles@[j].1),
                total == total_size(self.bundles@, i as int),
                total <= i * 0x1_0000_0000,
            decreases self.bundles@.len() - i,
        {
            assert(range_ok(self.bundles@[i as int].1));
            let range = self.bundles[i].1.get_range();
            assert(i * 0x1_0000_0000 + 0x1_0000_0000 == (i + 1) * 0x1_0000_0000) by (nonlinear_arith);
            assert((i + 1) * 0x1_0000_0000 <= 0x1_0000_0000 * 0x1_0000_0000) by (nonlinear_arith)
                requires
                    i < 0x1_0000_0000,
            ;
            total = total + (range.end - range.start) as u64;
            i = i + 1;
        }
        total as u32
    }
}

impl File {
    /// The plan that fetches exactly the chunks whose `keep` flag is set.
    pub fn download_if(&self, keep: &[bool]) -> (r: DownloadFile)
        requires
            keep@.len() == self.chunks@.len(),
        ensures
            r.name@ == self.name@,
            r.size == self.size,
            r.max_uncompressed == self.max_uncompressed,
            file_planned(self.chunks@, keep@, r),
    {
        let ids = collect_bundle_ids(&self.chunks, keep);
        let mut bundles: Vec<(u64, DownloadBundle)> = Vec::new();
        let mut j: usize = 0;
        while j < ids.len()
            invariant
                keep@.len() == self.chunks@.len(),
                j <= ids@.len(),
                bundle_ids(bundles@) =~= ids@.take(j as int),
                forall|k: int|
                    0 <= k < bundles@.len() ==> bundle_planned(
                        self.chunks@,
                        keep@,
                        (#[trigger] bundles@[k]).0,
                        bundles@[k].1,
                    ),
            decreases ids@.len() - j,
        {
            let b = ids[j];
            let plan = plan_bundle(&self.chunks, keep, b);
            let ghost before = bundles@;
            bundles.push((b, plan));
            assert(bundle_ids(bundles@) =~= bundle_ids(before).push(b));
            assert(ids@.take(j + 1) =~= ids@.take(j as int).push(b));
            j = j + 1;
        }
        assert(ids@.take(j as int) =~= ids@);
        DownloadFile {
            name: self.name.clone(),
            size: self.size,
            max_uncompressed: self.max_uncompressed,
            bundles,
        }
    }

    /// The plan that fetches every chunk.
    pub fn download_all(&self) -> (r: DownloadFile)
        ensures
            r.name@ == self.name@,
            r.size == self.size,
            r.max_uncompressed == self.max_uncompressed,
            file_planned(self.chunks@, Seq::new(self.chunks@.len(), |i: int| true), r),
    {
        let mut keep: Vec<bool> = Vec::new();
        let mut i: usize = 0;
        while i < self.chunks.len()
            invariant
                i <= self.chunks@.len(),
                keep@ =~= Seq::new(i as nat, |k: int| true),
            decreases self.chunks@.len() - i,
        {
            keep.push(true);
            i = i + 1;
        }
        self.download_if(keep.as_slice())
    }
}

/// Whether the bytes of chunk `c` in `existing` hash to its id under `t`.
pub fn chunk_matches(existing: &[u8], c: Chunk, t: HashType) -> (r: bool)
    ensures
        r == chunk_intact(existing@, c, t),
{
    if c.offset_uncompressed as u64 + c.size_uncompressed as u64 > existing.len() as u64 {
        return false;
    }
    let start = c.offset_uncompressed as usize;
    let end = start + c.size_uncompressed as usize;
    t.compute(slice_subrange(existing, start, end)) == c.chunk_id
}

/// The keep flags that mark every chunk not intact in `existing`.
pub open spec fn stale_chunks(existing: Seq<u8>, cs: Seq<Chunk>, t: HashType) -> Seq<bool> {
    Seq::new(cs.len(), |i: int| !chunk_intact(existing, cs[i], t))
}

impl File {
    /// Whether every chunk of the file is intact in `existing`, the bytes of
    /// the copy on disk.
    pub fn verify(&self, existing: &[u8]) -> (r: bool)
        ensures
            r == forall|i: int|
                0 <= i < self.chunks@.len() ==> chunk_intact(
                    existing@,
                    #[trigger] self.chunks@[i],
                    self.hash_type,
                ),
    {
        let mut i: usize = 0;
        while i < self.chunks.len()
            invariant
                i <= self.chunks@.len(),
                forall|k: int|
                    0 <= k < i ==> chunk_intact(existing@, #[trigger] self.chunks@[k], self.hash_type),
            decreases self.chunks@.len() - i,
        {
            if !chunk_matches(existing, self.chunks[i], self.hash_type) {
                return false;
            }
            i = i + 1;
        }
        true
    }

    /// The plan that fetches only the chunks that are not intact in
    /// `existing`, the bytes of the copy on disk.
    pub fn download_checked(&self, existing: &[u8]) -> (r: DownloadFile)
        ensures
            r.name@ == self.name@,
            r.size == self.size,
            r.max_uncompressed == self.max_uncompressed,
            file_planned(self.chunks@, stale_chunks(existing@, self.chunks@, self.hash_type), r),
    {
        let mut keep: Vec<bool> = Vec::new();
        let mut i: usize = 0;
        while i < self.chunks.len()
            invariant
                i <= self.chunks@.len(),
                keep@ =~= stale_chunks(existing@, self.chunks@, self.hash_type).take(i as int),
            decreases self.chunks@.len() - i,
        {
            let stale = !chunk_matches(existing, self.chunks[i], self.hash_type);
            keep.push(stale);
            i = i + 1;
        }
        assert(keep@ =~= stale_chunks(existing@, self.chunks@, self.hash_type));
        self.download_if(keep.as_slice())
    }
}

/// When every chunk of a file is intact on disk, the plan that skips intact
/// chunks fetches nothing.
pub proof fn lemma_intact_plan_empty(cs: Seq<Chunk>, existing: Seq<u8>, t: HashType, d: DownloadFile)
    requires
        forall|i: int| 0 <= i < cs.len() ==> chunk_intact(existing, #[trigger] cs[i], t),
        file_planned(cs, stale_chunks(existing, cs, t), d),
    ensures
        d.bundles@.len() == 0,
{
    let keep = stale_chunks(existing, cs, t);
    assert(kept_bundles(cs, keep, cs.len() as int) =~= Set::<u64>::empty()) by {
        assert forall|b: u64| !kept_bundles(cs, keep, cs.len() as int).contains(b) by {
            assert forall|i: int| 0 <= i < cs.len() implies !#[trigger] keep[i] by {
                assert(chunk_intact(existing, cs[i], t));
            }
        }
    }
    if d.bundles@.len() > 0 {
        assert(bundle_ids(d.bundles@).to_set().contains(bundle_ids(d.bundles@)[0]));
    }
}

proof fn lemma_singleton_seq<A>(s: Seq<A>, x: A)
    requires
        s.no_duplicates(),
        s.to_set() == set![x],
    ensures
        s == seq![x],
{
    assert(s.to_set().contains(x));
    assert(s.contains(x));
    if s.len() > 1 {
        assert(s.to_set().contains(s[0]));
        assert(s.to_set().contains(s[1]));
    }
    assert(s =~= seq![x]);
}

proof fn lemma_sorted_no_duplicates(s: Seq<u32>)
    requires
        strictly_sorted(s),
    ensures
        s.no_duplicates(),
{
    assert forall|i: int, j: int| 0 <= i < s.len() && 0 <= j < s.len() && i != j implies s[i] != s[j] by {
        if i < j {
            assert(s[i] < s[j]);
        } else {
            assert(s[j] < s[i]);
        }
    }
}

/// When exactly one chunk of a file is not intact on disk, the plan that
/// skips intact chunks fetches only that chunk's bundle, with a single entry
/// at its compressed offset that writes to its file offset alone.
pub proof fn lemma_single_stale_plan(cs: Seq<Chunk>, existing: Seq<u8>, t: HashType, k: int, d: DownloadFile)
    requires
        0 <= k < cs.len(),
        !chunk_intact(existing, cs[k], t),
        forall|i: int| 0 <= i < cs.len() && i != k ==> chunk_intact(existing, #[trigger] cs[i], t),
        file_planned(cs, stale_chunks(existing, cs, t), d),
    ensures
        d.bundles@.len() == 1,
        d.bundles@[0].0 == cs[k].bundle_id,
        d.bundles@[0].1.offset_compressed@.len() == 1,
        d.bundles@[0].1.offset_compressed@[0].0 == cs[k].offset_compressed,
        d.bundles@[0].1.offset_compressed@[0].1.offset_uncompressed@ == seq![cs[k].offset_uncompressed],
{
    let keep = stale_chunks(existing, cs, t);
    let n = cs.len() as int;
    let c = cs[k];
    assert forall|i: int| 0 <= i < n implies (#[trigger] keep[i] <==> i == k) by {
        if i != k {
            assert(chunk_intact(existing, cs[i], t));
        }
    }
    assert(kept_bundles(cs, keep, n) =~= set![c.bundle_id]) by {
        assert(keep[k]);
    }
    lemma_singleton_seq(bundle_ids(d.bundles@), c.bundle_id);
    assert(bundle_ids(d.bundles@).len() == d.bundles@.len());
    assert(d.bundles@.len() == 1);
    assert(bundle_ids(d.bundles@)[0] == c.bundle_id);
    let b = d.bundles@[0].1;
    assert(bundle_planned(cs, keep, d.bundles@[0].0, b));
    assert(kept_offsets(cs, keep, c.bundle_id, n) =~= set![c.offset_compressed]) by {
        assert(keep[k]);
    }
    lemma_sorted_no_duplicates(entry_keys(b.offset_compressed@));
    lemma_singleton_seq(entry_keys(b.offset_compressed@), c.offset_compressed);
    assert(entry_keys(b.offset_compressed@).len() == b.offset_compressed@.len());
    assert(entry_keys(b.offset_compressed@)[0] == c.offset_compressed);
    let e = b.offset_compressed@[0];
    assert(chunk_planned(cs, keep, c.bundle_id, e.0, e.1));
    assert(kept_targets(cs, keep, c.bundle_id, c.offset_compressed, n) =~= set![c.offset_uncompressed]) by {
        assert(kept_at(cs, keep, c.bundle_id, c.offset_compressed, k));
        assert forall|i: int| 0 <= i < n && #[trigger] kept_at(cs, keep, c.bundle_id, c.offset_compressed, i) implies i == k by {
            assert(keep[i]);
        }
    }
    lemma_sorted_no_duplicates(e.1.offset_uncompressed@);
    lemma_singleton_seq(e.1.offset_uncompressed@, c.offset_uncompressed);
}

} // verus!
