//! Per-package transfer state: the staged chunks, their assembly into one
//! package in ascending index order, and the checksum verification of the
//! result.
//!
//! A `Transfer` owns the staging area of one in-progress package download.
//! The decoded bytes of every accepted chunk are held with their indices, kept
//! sorted and free of duplicates; the derived path functions say where the
//! staging directory, each chunk file and the finished `.spkg` package live
//! under the transfer's prefix directory.

use vstd::prelude::*;

use crate::package::{dec_str, PackageId};
use rustc_serialize::base64::FromBase64;
use crypto::digest::Digest;

verus! {

/// One staged chunk: its index and its decoded bytes.
pub struct Chunk {
    pub index: u64,
    pub bytes: Vec<u8>,
}

/// State of one in-progress package download.
pub struct Transfer {
    /// Identity of the package being transferred.
    pub package: PackageId,
    /// Expected lower-case hex SHA-1 checksum of the assembled package.
    pub checksum: String,
    /// Indices of the chunks staged so far, ascending and without duplicates.
    pub transferred_chunks: Vec<u64>,
    /// Root directory under which `downloads/` and `packages/` live.
    pub prefix_dir: String,
    /// Unix timestamp of the last write attempt, successful or not.
    pub last_chunk_received: i64,
    /// The staged chunks themselves, sorted by ascending index.
    pub chunks: Vec<Chunk>,
}

impl Transfer {
    /// Well-formedness: the recorded indices mirror the staged chunks, and the
    /// chunks are sorted strictly by index (so indices are unique).
    pub open spec fn wf(self) -> bool {
        &&& self.chunks@.len() == self.transferred_chunks@.len()
        &&& forall|i: int|
            0 <= i < self.chunks@.len() ==> #[trigger] self.transferred_chunks@[i]
                == self.chunks@[i].index
        &&& forall|i: int, j: int|
            0 <= i < j < self.chunks@.len() ==> (#[trigger] self.chunks@[i].index)
                < (#[trigger] self.chunks@[j].index)
    }

    /// Whether a chunk with index `k` is staged.
    pub open spec fn has_index(self, k: u64) -> bool {
        exists|i: int| 0 <= i < self.chunks@.len() && (#[trigger] self.chunks@[i].index) == k
    }

    /// Position of the staged chunk with index `k` (meaningful when
    /// `has_index(k)` holds; unique under `wf`).
    pub open spec fn pos_of(self, k: u64) -> int {
        choose|i: int| 0 <= i < self.chunks@.len() && (#[trigger] self.chunks@[i].index) == k
    }

    /// The staged chunks as a map from index to decoded bytes.
    pub open spec fn chunk_map(self) -> Map<u64, Seq<u8>> {
        Map::new(|k: u64| self.has_index(k), |k: u64| self.chunks@[self.pos_of(k)].bytes@)
    }

    /// Under `wf`, a chunk's position is determined by its index.
    pub proof fn lemma_pos_unique(self, i: int, k: u64)
        requires
            self.wf(),
            0 <= i < self.chunks@.len(),
            self.chunks@[i].index == k,
        ensures
            self.has_index(k),
            self.pos_of(k) == i,
    {
        assert(self.has_index(k));
        let j = self.pos_of(k);
        if i < j {
            assert(self.chunks@[i].index < self.chunks@[j].index);
        } else if j < i {
            assert(self.chunks@[j].index < self.chunks@[i].index);
        }
    }

    /// The directory `{prefix}/downloads/{name}-{version}` where this
    /// transfer stages its chunks.
    pub open spec fn chunk_dir_spec(self) -> Seq<char> {
        self.prefix_dir@ + "/downloads/"@ + self.package.full_name_spec()
    }

    /// The file `{chunk_dir}/{index}` holding one staged chunk.
    pub open spec fn chunk_path_spec(self, index: u64) -> Seq<char> {
        self.chunk_dir_spec() + "/"@ + dec_str(index as nat)
    }

    /// The directory `{prefix}/packages` where finished packages are kept.
    pub open spec fn package_dir_spec(self) -> Seq<char> {
        self.prefix_dir@ + "/packages"@
    }

    /// The file `{prefix}/packages/{name}-{version}.spkg` of the assembled
    /// package.
    pub open spec fn package_path_spec(self) -> Seq<char> {
        self.package_dir_spec() + "/"@ + self.package.full_name_spec() + ".spkg"@
    }

    /// Fresh transfer state with the given creation time: no chunks staged.
    pub fn started_at(prefix: String, package: PackageId, checksum: String, now: i64) -> (t:
        Transfer)
        ensures
            t.package == package,
            t.checksum == checksum,
            t.prefix_dir == prefix,
            t.last_chunk_received == now,
            t.chunks@ =~= Seq::<Chunk>::empty(),
            t.transferred_chunks@ =~= Seq::<u64>::empty(),
            t.chunk_map() =~= Map::<u64, Seq<u8>>::empty(),
            t.wf(),
    {
        let t = Transfer {
            package,
            checksum,
            transferred_chunks: Vec::new(),
            prefix_dir: prefix,
            last_chunk_received: now,
            chunks: Vec::new(),
        };
        proof {
            assert(t.chunk_map() =~= Map::<u64, Seq<u8>>::empty());
        }
        t
    }

    /// Fresh transfer state, created now. The creation time comes from the
    /// clock; nothing is assumed of its value.
    pub fn new(prefix: String, package: PackageId, checksum: String) -> (t: Transfer)
        ensures
            t.package == package,
            t.checksum == checksum,
            t.prefix_dir == prefix,
            t.chunks@ =~= Seq::<Chunk>::empty(),
            t.transferred_chunks@ =~= Seq::<u64>::empty(),
            t.chunk_map() =~= Map::<u64, Seq<u8>>::empty(),
            t.wf(),
    {
        let now = now_unix_sec();
        Transfer::started_at(prefix, package, checksum, now)
    }

    /// Transfer with empty identity and checksum, for tests.
    pub fn new_test(prefix: &str) -> (t: Transfer)
        ensures
            t.package.name@ =~= Seq::<char>::empty(),
            t.package.version@ =~= Seq::<char>::empty(),
            t.checksum@ =~= Seq::<char>::empty(),
            t.prefix_dir@ == prefix@,
            t.chunks@ =~= Seq::<Chunk>::empty(),
            t.transferred_chunks@ =~= Seq::<u64>::empty(),
            t.chunk_map() =~= Map::<u64, Seq<u8>>::empty(),
            t.wf(),
    {
        let package = PackageId::new(String::new(), String::new());
        Transfer::new(prefix.to_owned(), package, String::new())
    }

    /// Path of the staging directory of this transfer.
    pub fn get_chunk_dir(&self) -> (r: String)
        ensures
            r@ == self.chunk_dir_spec(),
    {
        let mut s = self.prefix_dir.clone();
        s.append("/downloads/");
        let full = self.package.full_name();
        s.append(full.as_str());
        proof {
            assert(s@ =~= self.chunk_dir_spec());
        }
        s
    }

    /// Path of the chunk file with the given index.
    pub fn get_chunk_path(&self, index: u64) -> (r: String)
        ensures
            r@ == self.chunk_path_spec(index),
    {
        let mut s = self.get_chunk_dir();
        s.append("/");
        let name = crate::package::u64_to_dec_string(index);
        s.append(name.as_str());
        proof {
            assert(s@ =~= self.chunk_path_spec(index));
        }
        s
    }

    /// Path of the directory where finished packages are kept.
    pub fn get_package_dir(&self) -> (r: String)
        ensures
            r@ == self.package_dir_spec(),
    {
        let mut s = self.prefix_dir.clone();
        s.append("/packages");
        s
    }

    /// Path of the assembled `.spkg` package file of this transfer.
    pub fn get_package_path(&self) -> (r: String)
        ensures
            r@ == self.package_path_spec(),
    {
        let mut s = self.get_package_dir();
        s.append("/");
        let full = self.package.full_name();
        s.append(full.as_str());
        s.append(".spkg");
        proof {
            assert(s@ =~= self.package_path_spec());
        }
        s
    }
}

/// First position whose chunk index is at least `index`; the place where a
/// chunk with that index belongs in the sorted staging order.
fn find_pos(chunks: &Vec<Chunk>, index: u64) -> (pos: usize)
    requires
        forall|i: int, j: int|
            0 <= i < j < chunks@.len() ==> (#[trigger] chunks@[i].index)
                < (#[trigger] chunks@[j].index),
    ensures
        0 <= pos <= chunks@.len(),
        forall|i: int| 0 <= i < pos ==> (#[trigger] chunks@[i].index) < index,
        forall|i: int| pos <= i < chunks@.len() ==> (#[trigger] chunks@[i].index) >= index,
{
    let mut pos: usize = 0;
    while pos < chunks.len() && chunks[pos].index < index
        invariant
            0 <= pos <= chunks@.len(),
            forall|i: int| 0 <= i < pos ==> (#[trigger] chunks@[i].index) < index,
            forall|i: int, j: int|
                0 <= i < j < chunks@.len() ==> (#[trigger] chunks@[i].index)
                    < (#[trigger] chunks@[j].index),
        decreases chunks@.len() - pos,
    {
        pos = pos + 1;
    }
    proof {
        assert forall|i: int| pos <= i < chunks@.len() implies (#[trigger] chunks@[i].index)
            >= index by {
            if pos < chunks@.len() && pos < i {
                assert(chunks@[pos as int].index < chunks@[i].index);
            }
        }
    }
    pos
}

impl Transfer {
    /// Stage `bytes` as the chunk with the given index, replacing any chunk
    /// already staged under that index and keeping the staging order sorted.
    fn store_chunk(&mut self, index: u64, bytes: Vec<u8>)
        requires
            old(self).wf(),
        ensures
            final(self).wf(),
            final(self).chunk_map() == old(self).chunk_map().insert(index, bytes@),
            final(self).package == old(self).package,
            final(self).checksum == old(self).checksum,
            final(self).prefix_dir == old(self).prefix_dir,
            final(self).last_chunk_received == old(self).last_chunk_received,
            (forall|i: int|
                0 <= i < old(self).chunks@.len() ==> (#[trigger] old(self).chunks@[i].index)
                    < index) ==> final(self).chunks@ == old(self).chunks@.push(
                (Chunk { index, bytes }),
            ),
    {
        let ghost t0 = *self;
        let pos = find_pos(&self.chunks, index);
        let replaced = pos < self.chunks.len() && self.chunks[pos].index == index;
        if replaced {
            self.chunks[pos].bytes = bytes;
        } else {
            self.chunks.insert(pos, Chunk { index, bytes });
            self.transferred_chunks.insert(pos, index);
        }
        proof {
            let t1 = *self;
            if replaced {
                assert(t1.chunks@ =~= t0.chunks@.update(pos as int, t1.chunks@[pos as int]));
                assert(t1.chunks@[pos as int].index == index);
                assert(forall|i: int|
                    0 <= i < t1.chunks@.len() ==> (#[trigger] t1.chunks@[i].index)
                        == t0.chunks@[i].index);
                assert(t1.wf());
            } else {
                assert(t1.chunks@ =~= t0.chunks@.insert(pos as int, Chunk { index, bytes: t1.chunks@[pos as int].bytes }));
                assert(forall|i: int|
                    0 <= i < pos ==> #[trigger] t1.chunks@[i] == t0.chunks@[i]);
                assert(forall|i: int|
                    pos < i < t1.chunks@.len() ==> #[trigger] t1.chunks@[i] == t0.chunks@[i
                        - 1]);
                assert(t1.chunks@[pos as int].index == index);
                assert(t0.chunks@.len() == pos || t0.chunks@[pos as int].index > index);
                assert forall|i: int, j: int| 0 <= i < j < t1.chunks@.len() implies (
                #[trigger] t1.chunks@[i].index) < (#[trigger] t1.chunks@[j].index) by {
                    if i == pos {
                        assert(t1.chunks@[j].index == t0.chunks@[j - 1].index);
                    } else if j == pos {
                        assert(t1.chunks@[i].index == t0.chunks@[i].index);
                    }
                }
                assert(t1.wf());
            }
            self.lemma_store_map(t0, index, bytes@, pos as int, replaced);
        }
    }

    /// After a store at position `pos`, the staged map is the old map with
    /// the new binding added.
    proof fn lemma_store_map(self, t0: Transfer, index: u64, data: Seq<u8>, pos: int, replaced: bool)
        requires
            t0.wf(),
            self.wf(),
            0 <= pos < self.chunks@.len(),
            self.chunks@[pos].index == index,
            self.chunks@[pos].bytes@ == data,
            replaced ==> self.chunks@.len() == t0.chunks@.len() && (forall|i: int|
                0 <= i < t0.chunks@.len() && i != pos ==> #[trigger] self.chunks@[i]
                    == t0.chunks@[i]) && 0 <= pos < t0.chunks@.len()
                && t0.chunks@[pos].index == index,
            !replaced ==> self.chunks@.len() == t0.chunks@.len() + 1 && (forall|i: int|
                0 <= i < pos ==> #[trigger] self.chunks@[i] == t0.chunks@[i]) && (forall|
                i: int,
            |
                pos < i < self.chunks@.len() ==> #[trigger] self.chunks@[i] == t0.chunks@[i
                    - 1]) && !t0.has_index(index),
        ensures
            self.chunk_map() == t0.chunk_map().insert(index, data),
    {
        self.lemma_pos_unique(pos, index);
        assert forall|k: u64| #[trigger] self.has_index(k) <==> (t0.has_index(k) || k
            == index) by {
            if self.has_index(k) && k != index {
                let i = choose|i: int|
                    0 <= i < self.chunks@.len() && (#[trigger] self.chunks@[i].index) == k;
                if replaced {
                    assert(t0.chunks@[i].index == k);
                } else {
                    if i < pos {
                        assert(t0.chunks@[i].index == k);
                    } else {
                        assert(t0.chunks@[i - 1].index == k);
                    }
                }
            }
            if t0.has_index(k) {
                let i = choose|i: int|
                    0 <= i < t0.chunks@.len() && (#[trigger] t0.chunks@[i].index) == k;
                if replaced {
                    if i == pos {
                        assert(self.chunks@[pos].index == k);
                    } else {
                        assert(self.chunks@[i].index == k);
                    }
                } else {
                    if i < pos {
                        assert(self.chunks@[i].index == k);
                    } else {
                        assert(self.chunks@[i + 1].index == k);
                    }
                }
            }
        }
        assert forall|k: u64| self.has_index(k) && k != index implies self.chunk_map()[k]
            == t0.chunk_map()[k] by {
            let i = choose|i: int|
                0 <= i < self.chunks@.len() && (#[trigger] self.chunks@[i].index) == k;
            self.lemma_pos_unique(i, k);
            if replaced {
                t0.lemma_pos_unique(i, k);
            } else {
                if i < pos {
                    t0.lemma_pos_unique(i, k);
                } else {
                    t0.lemma_pos_unique(i - 1, k);
                }
            }
        }
        assert(self.chunk_map() =~= t0.chunk_map().insert(index, data));
    }
}

/// The concatenation of the bytes of `s`, in the order of `s`.
pub open spec fn assembled_from(s: Seq<Chunk>) -> Seq<u8>
    decreases s.len(),
{
    if s.len() == 0 {
        Seq::<u8>::empty()
    } else {
        s[0].bytes@ + assembled_from(s.drop_first())
    }
}

/// Concatenation peels off its last chunk as well as its first.
proof fn lemma_assembled_snoc(s: Seq<Chunk>)
    requires
        s.len() > 0,
    ensures
        assembled_from(s) == assembled_from(s.drop_last()) + s.last().bytes@,
    decreases s.len(),
{
    if s.len() == 1 {
        assert(s.drop_first() =~= Seq::<Chunk>::empty());
        assert(s.drop_last() =~= Seq::<Chunk>::empty());
        assert(assembled_from(s) =~= assembled_from(s.drop_last()) + s.last().bytes@);
    } else {
        lemma_assembled_snoc(s.drop_first());
        assert(s.drop_first().drop_last() =~= s.drop_last().drop_first());
        assert(s.drop_first().last() == s.last());
        assert(s.drop_last()[0] == s[0]);
        assert(assembled_from(s) == s[0].bytes@ + (assembled_from(s.drop_last().drop_first())
            + s.last().bytes@));
        assert(assembled_from(s) =~= (s[0].bytes@ + assembled_from(s.drop_last().drop_first()))
            + s.last().bytes@);
    }
}

/// A copy of the given bytes.
fn copy_bytes(b: &Vec<u8>) -> (r: Vec<u8>)
    ensures
        r@ == b@,
{
    let mut out: Vec<u8> = Vec::new();
    let mut j: usize = 0;
    while j < b.len()
        invariant
            0 <= j <= b@.len(),
            out@ =~= b@.subrange(0, j as int),
        decreases b@.len() - j,
    {
        out.push(b[j]);
        j = j + 1;
    }
    proof {
        assert(b@.subrange(0, b@.len() as int) =~= b@);
    }
    out
}

impl Transfer {
    /// The bytes of the package this transfer assembles: the staged chunks
    /// concatenated in ascending index order.
    pub open spec fn assembled(self) -> Seq<u8> {
        assembled_from(self.chunks@)
    }

    /// Stage one chunk, stamping the attempt with the given time. Decodes the
    /// base64 payload; a payload that does not decode is rejected and stages
    /// nothing. The time of the attempt is recorded either way. Returns true
    /// exactly when the chunk was staged.
    pub fn apply_chunk(&mut self, msg: &str, index: u64, now: i64) -> (r: bool)
        requires
            old(self).wf(),
        ensures
            final(self).wf(),
            r == (base64_decoded(msg@) is Some),
            final(self).last_chunk_received == now,
            final(self).package == old(self).package,
            final(self).checksum == old(self).checksum,
            final(self).prefix_dir == old(self).prefix_dir,
            r ==> final(self).chunk_map() == old(self).chunk_map().insert(
                index,
                base64_decoded(msg@).unwrap(),
            ),
            !r ==> final(self).chunk_map() == old(self).chunk_map() && final(self).chunks
                == old(self).chunks && final(self).transferred_chunks == old(
                self,
            ).transferred_chunks,
            r && (forall|i: int|
                0 <= i < old(self).chunks@.len() ==> (#[trigger] old(self).chunks@[i].index)
                    < index) ==> final(self).assembled() == old(self).assembled()
                + base64_decoded(msg@).unwrap(),
    {
        let decoded = decode_base64(msg);
        let r = match decoded {
            Some(bytes) => {
                let ghost t0 = *self;
                self.store_chunk(index, bytes);
                proof {
                    if forall|i: int|
                        0 <= i < t0.chunks@.len() ==> (#[trigger] t0.chunks@[i].index)
                            < index {
                        lemma_assembled_snoc(self.chunks@);
                        assert(self.chunks@.drop_last() =~= t0.chunks@);
                    }
                }
                true
            },
            None => false,
        };
        self.last_chunk_received = now;
        r
    }

    /// Stage one chunk, stamping the attempt with the current time. The
    /// clock's value is not assumed; everything else is as for `apply_chunk`.
    pub fn write_chunk(&mut self, msg: &str, index: u64) -> (r: bool)
        requires
            old(self).wf(),
        ensures
            final(self).wf(),
            r == (base64_decoded(msg@) is Some),
            final(self).package == old(self).package,
            final(self).checksum == old(self).checksum,
            final(self).prefix_dir == old(self).prefix_dir,
            r ==> final(self).chunk_map() == old(self).chunk_map().insert(
                index,
                base64_decoded(msg@).unwrap(),
            ),
            !r ==> final(self).chunk_map() == old(self).chunk_map() && final(self).chunks
                == old(self).chunks && final(self).transferred_chunks == old(
                self,
            ).transferred_chunks,
            r && (forall|i: int|
                0 <= i < old(self).chunks@.len() ==> (#[trigger] old(self).chunks@[i].index)
                    < index) ==> final(self).assembled() == old(self).assembled()
                + base64_decoded(msg@).unwrap(),
    {
        let now = now_unix_sec();
        self.apply_chunk(msg, index, now)
    }

    /// The staged bytes of the chunk with the given index, if one is staged.
    pub fn chunk_bytes(&self, index: u64) -> (r: Option<Vec<u8>>)
        requires
            self.wf(),
        ensures
            r is Some <==> self.has_index(index),
            r matches Some(v) ==> v@ == self.chunk_map()[index],
    {
        let mut i: usize = 0;
        while i < self.chunks.len()
            invariant
                self.wf(),
                0 <= i <= self.chunks@.len(),
                forall|j: int| 0 <= j < i ==> (#[trigger] self.chunks@[j].index) != index,
            decreases self.chunks@.len() - i,
        {
            if self.chunks[i].index == index {
                proof {
                    self.lemma_pos_unique(i as int, index);
                }
                return Some(copy_bytes(&self.chunks[i].bytes));
            }
            i = i + 1;
        }
        None
    }

    /// Concatenate the staged chunks, in their ascending index order, into
    /// the bytes of the package file.
    pub fn assemble_chunks(&self) -> (r: Vec<u8>)
        ensures
            r@ == self.assembled(),
    {
        let mut out: Vec<u8> = Vec::new();
        let mut i: usize = 0;
        while i < self.chunks.len()
            invariant
                0 <= i <= self.chunks@.len(),
                out@ == assembled_from(self.chunks@.subrange(0, i as int)),
            decreases self.chunks@.len() - i,
        {
            let b = &self.chunks[i].bytes;
            let mut j: usize = 0;
            while j < b.len()
                invariant
                    0 <= j <= b@.len(),
                    b@ == self.chunks@[i as int].bytes@,
                    0 <= i < self.chunks@.len(),
                    out@ =~= assembled_from(self.chunks@.subrange(0, i as int)) + b@.subrange(
                        0,
                        j as int,
                    ),
                decreases b@.len() - j,
            {
                out.push(b[j]);
                j = j + 1;
            }
            proof {
                let pre = self.chunks@.subrange(0, i as int);
                let cur = self.chunks@.subrange(0, i as int + 1);
                lemma_assembled_snoc(cur);
                assert(cur.drop_last() =~= pre);
                assert(b@.subrange(0, b@.len() as int) =~= b@);
                assert(out@ =~= assembled_from(cur));
            }
            i = i + 1;
        }
        proof {
            assert(self.chunks@.subrange(0, self.chunks@.len() as int) =~= self.chunks@);
        }
        out
    }

    /// Whether the expected checksum names the SHA-1 digest of the given
    /// assembled bytes, rendered in lower-case hex. An expected checksum
    /// that is not forty lower-case hex digits can never match.
    pub fn checksum_matches(&self, data: &Vec<u8>) -> (r: bool)
        ensures
            r == (self.checksum@ == sha1_hex(data@)),
            r ==> self.checksum@.len() == 40,
            r ==> forall|i: int|
                0 <= i < self.checksum@.len() ==> is_lower_hex_digit(
                    #[trigger] self.checksum@[i],
                ),
    {
        let digest = sha1_hex_digest(data);
        let r = self.checksum == digest;
        proof {
            if self.checksum@ == digest@ {
                assert forall|i: int| 0 <= i < self.checksum@.len() implies is_lower_hex_digit(
                    #[trigger] self.checksum@[i],
                ) by {
                    assert(self.checksum@[i] == digest@[i]);
                }
            }
        }
        r
    }

    /// Assemble the staged chunks and verify the result: true exactly when
    /// the expected checksum is the SHA-1 digest, in lower-case hex, of the
    /// chunks concatenated in ascending index order. An expected checksum
    /// that is not forty lower-case hex digits can never pass.
    pub fn assemble_package(&self) -> (r: bool)
        ensures
            r == (self.checksum@ == sha1_hex(self.assembled())),
            r ==> self.checksum@.len() == 40,
            r ==> forall|i: int|
                0 <= i < self.checksum@.len() ==> is_lower_hex_digit(
                    #[trigger] self.checksum@[i],
                ),
    {
        let data = self.assemble_chunks();
        self.checksum_matches(&data)
    }
}

/// Relies on the time crate's `OffsetDateTime::now_utc`: the current unix
/// time in seconds. Nothing is assumed of the value.
#[verifier::external_body]
fn now_unix_sec() -> i64 {
    time::OffsetDateTime::now_utc().unix_timestamp()
}

/// Chunk sequences whose entries carry the same bytes concatenate to the
/// same package.
proof fn lemma_assembled_pointwise(x: Seq<Chunk>, y: Seq<Chunk>)
    requires
        x.len() == y.len(),
        forall|i: int| 0 <= i < x.len() ==> (#[trigger] x[i]).bytes@ == y[i].bytes@,
    ensures
        assembled_from(x) == assembled_from(y),
    decreases x.len(),
{
    if x.len() > 0 {
        assert forall|i: int|
            0 <= i < x.drop_first().len() implies (#[trigger] x.drop_first()[i]).bytes@
            == y.drop_first()[i].bytes@ by {
            assert(x[i + 1].bytes@ == y[i + 1].bytes@);
        }
        lemma_assembled_pointwise(x.drop_first(), y.drop_first());
        assert(x[0].bytes@ == y[0].bytes@);
    }
}

/// In two well-formed transfers staging the same index set, the first `i`
/// chunks carry the same indices: a sorted staging order is determined by
/// the set of staged indices.
proof fn lemma_prefix_indices_agree(a: Transfer, b: Transfer, i: int)
    requires
        a.wf(),
        b.wf(),
        forall|k: u64| a.has_index(k) <==> b.has_index(k),
        0 <= i <= a.chunks@.len(),
        i <= b.chunks@.len(),
    ensures
        forall|k: int| 0 <= k < i ==> (#[trigger] a.chunks@[k].index) == b.chunks@[k].index,
    decreases i,
{
    if i > 0 {
        lemma_prefix_indices_agree(a, b, i - 1);
        let x = a.chunks@[i - 1].index;
        let y = b.chunks@[i - 1].index;
        if x < y {
            assert(a.has_index(x));
            let j = choose|j: int|
                0 <= j < b.chunks@.len() && (#[trigger] b.chunks@[j].index) == x;
            assert(j < i - 1) by {
                if j >= i - 1 {
                    if j > i - 1 {
                        assert(b.chunks@[i - 1].index < b.chunks@[j].index);
                    }
                }
            }
            assert(a.chunks@[j].index == x);
            assert(a.chunks@[j].index < a.chunks@[i - 1].index);
        } else if y < x {
            assert(b.has_index(y));
            let j = choose|j: int|
                0 <= j < a.chunks@.len() && (#[trigger] a.chunks@[j].index) == y;
            assert(j < i - 1) by {
                if j >= i - 1 {
                    if j > i - 1 {
                        assert(a.chunks@[i - 1].index < a.chunks@[j].index);
                    }
                }
            }
            assert(b.chunks@[j].index == y);
            assert(b.chunks@[j].index < b.chunks@[i - 1].index);
        }
    }
}

/// Law: assembly is concatenation by ascending index. The assembled package
/// is a function of the staged map alone — any two well-formed transfers
/// holding the same decoded bytes under the same indices assemble to the
/// same package, whatever order the chunks arrived in.
pub proof fn lemma_assembly_by_ascending_index(a: Transfer, b: Transfer)
    requires
        a.wf(),
        b.wf(),
        a.chunk_map() == b.chunk_map(),
    ensures
        a.assembled() == b.assembled(),
{
    assert forall|k: u64| a.has_index(k) <==> b.has_index(k) by {
        assert(a.chunk_map().dom().contains(k) <==> a.has_index(k));
        assert(b.chunk_map().dom().contains(k) <==> b.has_index(k));
    }
    let la = a.chunks@.len() as int;
    let lb = b.chunks@.len() as int;
    if la <= lb {
        lemma_prefix_indices_agree(a, b, la);
        if la < lb {
            let x = b.chunks@[la].index;
            b.lemma_pos_unique(la, x);
            assert(b.has_index(x));
            let j = choose|j: int|
                0 <= j < a.chunks@.len() && (#[trigger] a.chunks@[j].index) == x;
            assert(b.chunks@[j].index == x);
            assert(b.chunks@[j].index < b.chunks@[la].index);
        }
    } else {
        lemma_prefix_indices_agree(a, b, lb);
        let x = a.chunks@[lb].index;
        a.lemma_pos_unique(lb, x);
        assert(a.has_index(x));
        let j = choose|j: int|
            0 <= j < b.chunks@.len() && (#[trigger] b.chunks@[j].index) == x;
        assert(a.chunks@[j].index == x);
        assert(a.chunks@[j].index < a.chunks@[lb].index);
    }
    assert(la == lb);
    assert forall|i: int| 0 <= i < la implies (#[trigger] a.chunks@[i]).bytes@
        == b.chunks@[i].bytes@ by {
        let k = a.chunks@[i].index;
        a.lemma_pos_unique(i, k);
        assert(b.chunks@[i].index == k);
        b.lemma_pos_unique(i, k);
        assert(a.chunk_map()[k] == a.chunks@[i].bytes@);
        assert(b.chunk_map()[k] == b.chunks@[i].bytes@);
    }
    lemma_assembled_pointwise(a.chunks@, b.chunks@);
}

/// Whether `c` is an ASCII letter or digit.
pub open spec fn is_ascii_alnum(c: char) -> bool {
    ||| '0' as u32 <= c as u32 <= '9' as u32
    ||| 'A' as u32 <= c as u32 <= 'Z' as u32
    ||| 'a' as u32 <= c as u32 <= 'z' as u32
}

/// Relies on rand's `Alphanumeric::sample_string`: a string of exactly `len`
/// random alphanumeric ASCII characters. Nothing is assumed of which
/// characters come back.
#[verifier::external_body]
fn random_alnum_string(len: usize) -> (r: String)
    ensures
        r@.len() == len as nat,
        forall|i: int| 0 <= i < r@.len() ==> is_ascii_alnum(#[trigger] r@[i]),
{
    rand::distr::SampleString::sample_string(&rand::distr::Alphanumeric, &mut rand::rng(), len)
}

impl Transfer {
    /// Give this transfer a freshly drawn random package identity whose name
    /// and version each have `i` characters, and return that identity.
    pub fn randomize(&mut self, i: usize) -> (r: PackageId)
        ensures
            final(self).package == r,
            r.name@.len() == i as nat,
            r.version@.len() == i as nat,
            forall|j: int| 0 <= j < r.name@.len() ==> is_ascii_alnum(#[trigger] r.name@[j]),
            forall|j: int| 0 <= j < r.version@.len() ==> is_ascii_alnum(#[trigger] r.version@[j]),
            final(self).checksum == old(self).checksum,
            final(self).prefix_dir == old(self).prefix_dir,
            final(self).last_chunk_received == old(self).last_chunk_received,
            final(self).chunks == old(self).chunks,
            final(self).transferred_chunks == old(self).transferred_chunks,
    {
        let name = random_alnum_string(i);
        let version = random_alnum_string(i);
        self.package = PackageId::new(name, version);
        self.package.clone()
    }
}

/// What a base64 string decodes to, if it is well-formed: the bytes depend on
/// the string alone.
pub uninterp spec fn base64_decoded(s: Seq<char>) -> Option<Seq<u8>>;

/// Relies on rustc-serialize's `FromBase64` for `str`: whether the string is
/// well-formed base64, and which bytes it encodes, depend on the string alone.
#[verifier::external_body]
fn decode_base64(msg: &str) -> (r: Option<Vec<u8>>)
    ensures
        r matches Some(v) ==> base64_decoded(msg@) == Some(v@),
        r is None ==> base64_decoded(msg@) is None,
{
    msg.from_base64().ok()
}

/// Whether `c` is a lower-case hexadecimal digit.
pub open spec fn is_lower_hex_digit(c: char) -> bool {
    ||| '0' as u32 <= c as u32 <= '9' as u32
    ||| 'a' as u32 <= c as u32 <= 'f' as u32
}

/// What the SHA-1 digest of some bytes renders to in lower-case hex: the
/// digest depends on the bytes alone.
pub uninterp spec fn sha1_hex(data: Seq<u8>) -> Seq<char>;

/// Relies on rust-crypto's `Sha1` with `Digest::result_str`: the lower-case
/// hex rendering of the SHA-1 digest depends on the input bytes alone, and
/// is always forty lower-case hex digits (twenty digest bytes, two digits
/// each).
#[verifier::external_body]
fn sha1_hex_digest(data: &Vec<u8>) -> (r: String)
    ensures
        r@ == sha1_hex(data@),
        r@.len() == 40,
        forall|i: int| 0 <= i < r@.len() ==> is_lower_hex_digit(#[trigger] r@[i]),
{
    let mut hasher = crypto::sha1::Sha1::new();
    hasher.input(data.as_slice());
    hasher.result_str()
}

} // verus!
