//! The per-entry decision logic of the parallel unpacker.
//!
//! Workers walk the numbered archives concurrently; within one archive the
//! entries are fed to [`UnpackState::step`] in order, and the returned
//! action is performed by the surrounding program. The only cross-entry
//! state is the pending split-metadata record, which binds a metadata
//! entry to the chunk entry that follows it.

use vstd::prelude::*;
use crate::bytes::contains_subslice;
use crate::metadata::{SplitMetadata, parse_split_metadata, spec_encode_md};
use crate::pack::copy_bytes;

verus! {

/// The entry types the unpacker distinguishes. Everything that is not a
/// directory, symlink or hardlink is handled by the file logic.
#[derive(Clone, Copy, PartialEq, Eq, Structural, Debug)]
pub enum UnpackEntryKind {
    Directory,
    Symlink,
    Hardlink,
    File,
}

/// Why the unpacker rejects an entry.
#[derive(Clone, Copy, PartialEq, Eq, Structural, Debug)]
pub enum UnpackError {
    /// A symlink or hardlink entry without a link target.
    MissingLinkTarget,
    /// A metadata entry whose payload is not a serialized record.
    MetadataParse,
    /// A metadata entry while another record is still pending.
    UnexpectedMetadata,
}

/// One step the surrounding program must perform for the entry.
pub enum UnpackAction {
    /// Create the directory, parents included.
    MakeDir { path: Vec<u8> },
    /// Create a symlink at `path` whose link text is `target`.
    MakeSymlink { path: Vec<u8>, target: Vec<u8> },
    /// Check that `target` is a file, then hard-link `path` to it.
    MakeHardLink { path: Vec<u8>, target: Vec<u8> },
    /// Under the process-wide pre-allocation lock: if no file is at
    /// `path`, create it and pre-allocate a zero range of `total_size`
    /// bytes; otherwise leave it as it is.
    Preallocate { path: Vec<u8>, total_size: u64 },
    /// Open the pre-allocated file, seek to `offset`, and copy the entry
    /// body, which must be `expected_len` bytes, into it.
    WriteChunk { path: Vec<u8>, offset: u64, expected_len: u64 },
    /// Create the file and stream the entry body into it.
    WriteWhole { path: Vec<u8> },
}

/// The mathematical form of an [`UnpackAction`].
pub enum UnpackActionV {
    MakeDir { path: Seq<u8> },
    MakeSymlink { path: Seq<u8>, target: Seq<u8> },
    MakeHardLink { path: Seq<u8>, target: Seq<u8> },
    Preallocate { path: Seq<u8>, total_size: int },
    WriteChunk { path: Seq<u8>, offset: int, expected_len: int },
    WriteWhole { path: Seq<u8> },
}

impl View for UnpackAction {
    type V = UnpackActionV;

    open spec fn view(&self) -> UnpackActionV {
        match self {
            UnpackAction::MakeDir { path } => UnpackActionV::MakeDir { path: path@ },
            UnpackAction::MakeSymlink { path, target } => UnpackActionV::MakeSymlink {
                path: path@,
                target: target@,
            },
            UnpackAction::MakeHardLink { path, target } => UnpackActionV::MakeHardLink {
                path: path@,
                target: target@,
            },
            UnpackAction::Preallocate { path, total_size } => UnpackActionV::Preallocate {
                path: path@,
                total_size: *total_size as int,
            },
            UnpackAction::WriteChunk { path, offset, expected_len } => UnpackActionV::WriteChunk {
                path: path@,
                offset: *offset as int,
                expected_len: *expected_len as int,
            },
            UnpackAction::WriteWhole { path } => UnpackActionV::WriteWhole { path: path@ },
        }
    }
}

/// A pending record, seen mathematically.
pub struct MdView {
    pub path: Seq<u8>,
    pub start_offset: int,
    pub chunk_size: int,
    pub total_size: int,
}

impl View for SplitMetadata {
    type V = MdView;

    open spec fn view(&self) -> MdView {
        MdView {
            path: self.path@,
            start_offset: self.start_offset as int,
            chunk_size: self.chunk_size as int,
            total_size: self.total_size as int,
        }
    }
}

/// `split-metadata`
pub open spec fn lit_md_marker() -> Seq<u8> {
    seq![0x73u8, 0x70u8, 0x6cu8, 0x69u8, 0x74u8, 0x2du8, 0x6du8, 0x65u8, 0x74u8, 0x61u8,
        0x64u8, 0x61u8, 0x74u8, 0x61u8]
}

/// A path that names a synthetic metadata entry.
pub open spec fn spec_is_md_path(path: Seq<u8>) -> bool {
    crate::bytes::spec_contains(path, lit_md_marker())
}

/// Whether `path` names a synthetic metadata entry (it contains
/// `split-metadata`).
pub fn is_split_metadata_path(path: &[u8]) -> (r: bool)
    ensures
        r == spec_is_md_path(path@),
{
    let marker: &[u8] = &[0x73, 0x70, 0x6c, 0x69, 0x74, 0x2d, 0x6d, 0x65, 0x74, 0x61, 0x64, 0x61,
        0x74, 0x61];
    proof {
        assert(marker@ =~= lit_md_marker());
    }
    contains_subslice(path, marker)
}

/// `rel` placed under `root`: `rel` itself when it is absolute or `root`
/// is empty, else `root`, a slash, `rel`.
pub open spec fn spec_join(root: Seq<u8>, rel: Seq<u8>) -> Seq<u8> {
    if rel.len() > 0 && rel[0] == 0x2f {
        rel
    } else if root.len() == 0 {
        rel
    } else {
        root + seq![0x2fu8] + rel
    }
}

/// Joins `rel` under `root`.
pub fn join_under(root: &[u8], rel: &[u8]) -> (r: Vec<u8>)
    ensures
        r@ == spec_join(root@, rel@),
{
    if (rel.len() > 0 && rel[0] == 0x2f) || root.len() == 0 {
        return copy_bytes(rel);
    }
    let mut out = copy_bytes(root);
    out.push(0x2f);
    crate::bytes::push_all(&mut out, rel);
    assert(out@ =~= spec_join(root@, rel@));
    out
}

/// The unpacker state for one archive: the output root, and the pending
/// record between a metadata entry and its chunk.
pub struct UnpackState {
    pub root: Vec<u8>,
    pub pending: Option<SplitMetadata>,
}

impl UnpackState {
    /// A fresh walk of one archive, extracting under `root`.
    pub fn new(root: Vec<u8>) -> (s: Self)
        ensures
            s.root@ == root@,
            s.pending is None,
    {
        UnpackState { root, pending: None }
    }

    /// Decides what to do with one entry.
    ///
    /// `body` must carry the entry payload when the entry is a metadata
    /// entry (a file entry whose path contains `split-metadata`); other
    /// entries are streamed by the caller and need no payload here.
    pub fn step(
        &mut self,
        kind: UnpackEntryKind,
        path: &Vec<u8>,
        link_target: Option<&Vec<u8>>,
        body: Option<&Vec<u8>>,
    ) -> (r: Result<UnpackAction, UnpackError>)
        requires
            kind == UnpackEntryKind::File && spec_is_md_path(path@) ==> body is Some,
        ensures
            final(self).root@ == old(self).root@,
            kind == UnpackEntryKind::Directory ==> r is Ok && r->Ok_0@
                == (UnpackActionV::MakeDir { path: spec_join(old(self).root@, path@) })
                && final(self).pending == old(self).pending,
            kind == UnpackEntryKind::Symlink || kind == UnpackEntryKind::Hardlink ==> {
                &&& link_target is None ==> r is Err && r->Err_0 == UnpackError::MissingLinkTarget
                    && final(self).pending == old(self).pending
                &&& link_target is Some ==> r is Ok && final(self).pending == old(self).pending
                    && r->Ok_0@ == (if kind == UnpackEntryKind::Symlink {
                        UnpackActionV::MakeSymlink {
                            path: spec_join(old(self).root@, path@),
                            target: spec_join(old(self).root@, link_target->0@),
                        }
                    } else {
                        UnpackActionV::MakeHardLink {
                            path: spec_join(old(self).root@, path@),
                            target: spec_join(old(self).root@, link_target->0@),
                        }
                    })
            },
            kind == UnpackEntryKind::File && spec_is_md_path(path@) ==> {
                &&& r is Ok ==> old(self).pending is None && final(self).pending is Some
                    && body->0@ == spec_encode_md(
                    final(self).pending->0.path@,
                    final(self).pending->0@.start_offset,
                    final(self).pending->0@.chunk_size,
                    final(self).pending->0@.total_size,
                ) && r->Ok_0@ == (UnpackActionV::Preallocate {
                    path: spec_join(old(self).root@, final(self).pending->0.path@),
                    total_size: final(self).pending->0.total_size as int,
                })
                &&& forall|p: Seq<u8>, off: int, csz: int, tot: int|
                    crate::metadata::spec_plain(p) && 0 <= off <= u32::MAX && 0 <= csz
                        <= u32::MAX && 0 <= tot <= u64::MAX && body->0@
                        == #[trigger] spec_encode_md(p, off, csz, tot) && old(self).pending
                        is None ==> r is Ok && final(self).pending->0@ == (MdView {
                        path: p,
                        start_offset: off,
                        chunk_size: csz,
                        total_size: tot,
                    })
                &&& r is Err && r->Err_0 == UnpackError::UnexpectedMetadata ==> old(self).pending
                    is Some
                &&& old(self).pending is Some ==> r is Err
                &&& r is Err ==> final(self).pending == old(self).pending
            },
            kind == UnpackEntryKind::File && !spec_is_md_path(path@) ==> r is Ok && {
                &&& old(self).pending is Some ==> r->Ok_0@ == (UnpackActionV::WriteChunk {
                    path: spec_join(old(self).root@, path@),
                    offset: old(self).pending->0.start_offset as int,
                    expected_len: old(self).pending->0.chunk_size as int,
                }) && final(self).pending is None
                &&& old(self).pending is None ==> r->Ok_0@ == (UnpackActionV::WriteWhole {
                    path: spec_join(old(self).root@, path@),
                }) && final(self).pending is None
            },
    {
        match kind {
            UnpackEntryKind::Directory => {
                let p = join_under(self.root.as_slice(), path.as_slice());
                Ok(UnpackAction::MakeDir { path: p })
            },
            UnpackEntryKind::Symlink => {
                match link_target {
                    None => Err(UnpackError::MissingLinkTarget),
                    Some(t) => {
                        let p = join_under(self.root.as_slice(), path.as_slice());
                        let tp = join_under(self.root.as_slice(), t.as_slice());
                        Ok(UnpackAction::MakeSymlink { path: p, target: tp })
                    },
                }
            },
            UnpackEntryKind::Hardlink => {
                match link_target {
                    None => Err(UnpackError::MissingLinkTarget),
                    Some(t) => {
                        let p = join_under(self.root.as_slice(), path.as_slice());
                        let tp = join_under(self.root.as_slice(), t.as_slice());
                        Ok(UnpackAction::MakeHardLink { path: p, target: tp })
                    },
                }
            },
            UnpackEntryKind::File => {
                if is_split_metadata_path(path.as_slice()) {
                    let payload = match body {
                        Some(x) => x,
                        None => {
                            return Err(UnpackError::MetadataParse);
                        },
                    };
                    let md = match parse_split_metadata(payload.as_slice()) {
                        Some(m) => m,
                        None => {
                            return Err(UnpackError::MetadataParse);
                        },
                    };
                    if self.pending.is_some() {
                        return Err(UnpackError::UnexpectedMetadata);
                    }
                    let p = join_under(self.root.as_slice(), md.path.as_slice());
                    let total = md.total_size;
                    self.pending = Some(md);
                    Ok(UnpackAction::Preallocate { path: p, total_size: total })
                } else {
                    match &self.pending {
                        Some(md) => {
                            let off = md.start_offset;
                            let csz = md.chunk_size;
                            let p = join_under(self.root.as_slice(), path.as_slice());
                            self.pending = None;
                            Ok(
                                UnpackAction::WriteChunk {
                                    path: p,
                                    offset: off as u64,
                                    expected_len: csz as u64,
                                },
                            )
                        },
                        None => {
                            let p = join_under(self.root.as_slice(), path.as_slice());
                            Ok(UnpackAction::WriteWhole { path: p })
                        },
                    }
                }
            },
        }
    }
}

/// `data` written into `buf` at `offset`: the model of one chunk write.
pub open spec fn spec_write_at(buf: Seq<u8>, offset: int, data: Seq<u8>) -> Seq<u8> {
    buf.map(|i: int, b: u8| if offset <= i < offset + data.len() { data[i - offset] } else { b })
}

/// Writes `data` into `buf` at `offset`, in place: the in-memory model of
/// one worker's chunk write into the pre-allocated file.
pub fn apply_chunk(buf: &mut Vec<u8>, offset: usize, data: &[u8])
    requires
        offset + data@.len() <= old(buf)@.len(),
    ensures
        final(buf)@ == spec_write_at(old(buf)@, offset as int, data@),
{
    let n = buf.len();
    let mut i: usize = 0;
    while i < data.len()
        invariant
            n == buf@.len(),
            i <= data@.len(),
            offset + data@.len() <= buf@.len(),
            buf@.len() == old(buf)@.len(),
            forall|k: int| 0 <= k < i ==> buf@[offset + k] == data@[k],
            forall|k: int|
                0 <= k < buf@.len() && !(offset <= k < offset + i) ==> buf@[k] == old(buf)@[k],
        decreases data@.len() - i,
    {
        buf.set(offset + i, data[i]);
        i += 1;
    }
    assert(buf@ =~= spec_write_at(old(buf)@, offset as int, data@));
}

/// Chunk writes to disjoint ranges commute: whichever worker writes
/// first, the file ends the same.
pub proof fn lemma_disjoint_writes_commute(
    buf: Seq<u8>,
    o1: int,
    d1: Seq<u8>,
    o2: int,
    d2: Seq<u8>,
)
    requires
        0 <= o1,
        0 <= o2,
        o1 + d1.len() <= o2 || o2 + d2.len() <= o1,
    ensures
        spec_write_at(spec_write_at(buf, o1, d1), o2, d2) == spec_write_at(
            spec_write_at(buf, o2, d2),
            o1,
            d1,
        ),
{
    assert(spec_write_at(spec_write_at(buf, o1, d1), o2, d2) =~= spec_write_at(
        spec_write_at(buf, o2, d2),
        o1,
        d1,
    ));
}

/// A reconstruction plan applied in order: each range is filled with the
/// original file's own bytes.
pub open spec fn spec_apply_plan(content: Seq<u8>, buf: Seq<u8>, ch: Seq<(int, int)>) -> Seq<u8>
    decreases ch.len(),
{
    if ch.len() == 0 {
        buf
    } else {
        spec_apply_plan(
            content,
            spec_write_at(buf, ch[0].0, content.subrange(ch[0].0, ch[0].0 + ch[0].1)),
            ch.drop_first(),
        )
    }
}

/// Writing every chunk of a tiling plan into a pre-allocated file of the
/// right size rebuilds the original file byte for byte.
pub proof fn lemma_plan_rebuilds(content: Seq<u8>, buf: Seq<u8>, ch: Seq<(int, int)>, lo: int)
    requires
        0 <= lo <= content.len(),
        buf.len() == content.len(),
        crate::laws::spec_tiles(ch, lo, content.len() as int),
        forall|i: int| 0 <= i < lo ==> buf[i] == content[i],
    ensures
        spec_apply_plan(content, buf, ch) == content,
    decreases ch.len(),
{
    if ch.len() == 0 {
        assert(buf =~= content);
    } else {
        let buf2 = spec_write_at(buf, ch[0].0, content.subrange(ch[0].0, ch[0].0 + ch[0].1));
        assert(forall|i: int| 0 <= i < lo + ch[0].1 ==> #[trigger] buf2[i] == content[i]);
        lemma_plan_rebuilds(content, buf2, ch.drop_first(), lo + ch[0].1);
    }
}

} // verus!
