//! The streaming split-writer: the state machine that consumes a tar entry
//! stream and decides, entry by entry, what goes into which numbered output
//! archive.
//!
//! The machine itself performs no I/O. For each entry it returns the list
//! of [`PackAction`]s the surrounding program must perform, in order:
//! finishing the current archive, opening the next one, appending a whole
//! entry, or appending a metadata record followed by a chunk of an
//! oversized file.

use vstd::prelude::*;
use crate::bytes::{bytes_eq, ends_with, push_all};
use crate::metadata::{SplitMetadata, encode_split_metadata, spec_encode_md};
use crate::num::{
    parse_u64_dec, push_dec, push_dec_pad3, spec_all_digits, spec_dec, spec_dec_pad3, spec_dec_val,
};

verus! {

/// The tar entry types the writer distinguishes.
#[derive(Clone, Copy, PartialEq, Eq, Structural, Debug)]
pub enum EntryKind {
    Regular,
    Directory,
    Symlink,
    Hardlink,
    Other,
}

/// One PAX key/value extension record.
pub struct PaxRecord {
    pub key: Vec<u8>,
    pub value: Vec<u8>,
}

/// What the writer reads of one incoming tar entry.
pub struct EntryMeta {
    pub kind: EntryKind,
    pub path: Vec<u8>,
    /// The size the tar header declares.
    pub size: u64,
    pub uid: u64,
    pub gid: u64,
    /// Link target, for symlink and hardlink entries.
    pub link_target: Option<Vec<u8>>,
    /// PAX extensions, in archive order.
    pub pax: Vec<PaxRecord>,
}

/// Why the writer rejects a configuration or an entry.
#[derive(Clone, Copy, PartialEq, Eq, Structural, Debug)]
pub enum PackError {
    /// `split_size` is zero or does not fit the u32 offsets of the
    /// split-metadata schema.
    BadSplitSize,
    /// The compression name is none of `zstd`, `gzip`, `none`.
    BadCompression,
    /// A PAX extension overriding the size does not hold a decimal u64.
    PaxSizeParse,
    /// A hardlink entry without a link target.
    MissingLinkTarget,
    /// A hardlink whose target was not written into the same archive.
    HardLinkTargetAbsent,
    /// A file that must be chunked but whose size exceeds the u32 fields
    /// of the split-metadata schema.
    FileTooLarge,
}

/// One step the surrounding program must perform, in list order.
pub enum PackAction {
    /// Close the current archive: flush the tar writer, the compressor and
    /// both digest sinks, in that order.
    Finish,
    /// Create output file `name` for archive number `ordinal`.
    Open { ordinal: u64, name: Vec<u8> },
    /// Append the entry as it came, header and body, under its own path.
    AppendWhole { path: Vec<u8>, size: u64 },
    /// Append a synthetic regular entry `name` with `payload` as its body.
    AppendMetadata { name: Vec<u8>, payload: Vec<u8> },
    /// Append a synthetic regular entry `path` whose body is the next
    /// `len` bytes of the oversized file, which start at `offset` in it.
    AppendChunk { path: Vec<u8>, offset: u64, len: u64, uid: u64, gid: u64 },
}

/// The mathematical form of a [`PackAction`].
pub enum ActionV {
    Finish,
    Open { ordinal: int, name: Seq<u8> },
    AppendWhole { path: Seq<u8>, size: int },
    AppendMetadata { name: Seq<u8>, payload: Seq<u8> },
    AppendChunk { path: Seq<u8>, offset: int, len: int, uid: int, gid: int },
}

impl View for PackAction {
    type V = ActionV;

    open spec fn view(&self) -> ActionV {
        match self {
            PackAction::Finish => ActionV::Finish,
            PackAction::Open { ordinal, name } => ActionV::Open {
                ordinal: *ordinal as int,
                name: name@,
            },
            PackAction::AppendWhole { path, size } => ActionV::AppendWhole {
                path: path@,
                size: *size as int,
            },
            PackAction::AppendMetadata { name, payload } => ActionV::AppendMetadata {
                name: name@,
                payload: payload@,
            },
            PackAction::AppendChunk { path, offset, len, uid, gid } => ActionV::AppendChunk {
                path: path@,
                offset: *offset as int,
                len: *len as int,
                uid: *uid as int,
                gid: *gid as int,
            },
        }
    }
}

/// The action lists, seen mathematically.
pub open spec fn acts_view(s: Seq<PackAction>) -> Seq<ActionV> {
    s.map(|i: int, a: PackAction| a@)
}

/// The path sets, seen mathematically (order and duplicates are
/// irrelevant; only membership is ever asked).
pub open spec fn paths_view(s: Seq<Vec<u8>>) -> Seq<Seq<u8>> {
    s.map(|i: int, p: Vec<u8>| p@)
}

/// The writer state, seen mathematically.
pub struct WView {
    pub split: int,
    pub prefix: Seq<u8>,
    pub is_open: bool,
    pub bytes: int,
    pub paths: Seq<Seq<u8>>,
    pub done: int,
    pub uses_source: bool,
}

/// The streaming split-writer.
///
/// `bytes_in_current` counts the uncompressed payload handed to the open
/// archive; `paths_in_current` the logical paths written into it, so that
/// hard links can be validated; `completed` the archives already closed,
/// which is also the ordinal of the next one to open.
pub struct WriterState {
    pub split_size: u64,
    pub prefix: Vec<u8>,
    pub compression: Vec<u8>,
    pub archive_open: bool,
    pub bytes_in_current: u64,
    pub paths_in_current: Vec<Vec<u8>>,
    pub completed: u64,
    pub source_dir: Option<Vec<u8>>,
}

impl View for WriterState {
    type V = WView;

    open spec fn view(&self) -> WView {
        WView {
            split: self.split_size as int,
            prefix: self.prefix@,
            is_open: self.archive_open,
            bytes: self.bytes_in_current as int,
            paths: paths_view(self.paths_in_current@),
            done: self.completed as int,
            uses_source: self.source_dir is Some,
        }
    }
}

/// `.` then the ordinal, zero-padded to at least three digits.
pub open spec fn spec_archive_name(prefix: Seq<u8>, ord: int) -> Seq<u8> {
    prefix + seq![0x2eu8] + spec_dec_pad3(ord)
}

/// `.split-metadata.`
pub open spec fn lit_md_infix() -> Seq<u8> {
    seq![0x2eu8, 0x73u8, 0x70u8, 0x6cu8, 0x69u8, 0x74u8, 0x2du8, 0x6du8, 0x65u8, 0x74u8,
        0x61u8, 0x64u8, 0x61u8, 0x74u8, 0x61u8, 0x2eu8]
}

/// `.json`
pub open spec fn lit_json_suffix() -> Seq<u8> {
    seq![0x2eu8, 0x6au8, 0x73u8, 0x6fu8, 0x6eu8]
}

/// The name of the metadata entry for segment `seg` of `path`.
pub open spec fn spec_md_name(path: Seq<u8>, seg: int) -> Seq<u8> {
    path + lit_md_infix() + spec_dec(seg) + lit_json_suffix()
}

/// Builds `<prefix>.NNN`.
pub fn make_archive_name(prefix: &[u8], ord: u64) -> (r: Vec<u8>)
    ensures
        r@ == spec_archive_name(prefix@, ord as int),
{
    let mut out: Vec<u8> = Vec::new();
    push_all(&mut out, prefix);
    out.push(0x2e);
    push_dec_pad3(&mut out, ord);
    assert(out@ =~= spec_archive_name(prefix@, ord as int));
    out
}

/// Builds `<path>.split-metadata.<seg>.json`.
pub fn make_md_name(path: &[u8], seg: u64) -> (r: Vec<u8>)
    ensures
        r@ == spec_md_name(path@, seg as int),
{
    let mut out: Vec<u8> = Vec::new();
    push_all(&mut out, path);
    push_all(
        &mut out,
        &[0x2e, 0x73, 0x70, 0x6c, 0x69, 0x74, 0x2d, 0x6d, 0x65, 0x74, 0x61, 0x64, 0x61, 0x74,
            0x61, 0x2e],
    );
    push_dec(&mut out, seg);
    push_all(&mut out, &[0x2e, 0x6a, 0x73, 0x6f, 0x6e]);
    assert(out@ =~= spec_md_name(path@, seg as int));
    out
}

/// Whether `p` is among the paths already written to the open archive.
pub fn contains_path(paths: &Vec<Vec<u8>>, p: &[u8]) -> (r: bool)
    ensures
        r == paths_view(paths@).contains(p@),
{
    let mut i: usize = 0;
    while i < paths.len()
        invariant
            i <= paths.len(),
            forall|j: int| 0 <= j < i ==> paths@[j]@ != p@,
        decreases paths.len() - i,
    {
        if bytes_eq(paths[i].as_slice(), p) {
            assert(paths_view(paths@)[i as int] == p@);
            return true;
        }
        i += 1;
    }
    assert(forall|j: int| 0 <= j < paths_view(paths@).len() ==> paths_view(paths@)[j] != p@);
    false
}

/// `size`
pub open spec fn lit_size() -> Seq<u8> {
    seq![0x73u8, 0x69u8, 0x7au8, 0x65u8]
}

/// `zstd`, `gzip`, `none`
pub open spec fn lit_zstd() -> Seq<u8> {
    seq![0x7au8, 0x73u8, 0x74u8, 0x64u8]
}

pub open spec fn lit_gzip() -> Seq<u8> {
    seq![0x67u8, 0x7au8, 0x69u8, 0x70u8]
}

pub open spec fn lit_none() -> Seq<u8> {
    seq![0x6eu8, 0x6fu8, 0x6eu8, 0x65u8]
}

/// The value of the first PAX record whose key ends with `size`.
pub open spec fn spec_find_pax_size(pax: Seq<PaxRecord>) -> Option<Seq<u8>>
    decreases pax.len(),
{
    if pax.len() == 0 {
        None
    } else if crate::bytes::spec_ends_with(pax[0].key@, lit_size()) {
        Some(pax[0].value@)
    } else {
        spec_find_pax_size(pax.drop_first())
    }
}

/// The on-disk length wins over the discovered size for regular files
/// when a staging directory is configured.
pub open spec fn spec_disk_adjust(sz: int, e: EntryMeta, disk: Option<u64>, uses_source: bool) -> int {
    if uses_source && e.kind == EntryKind::Regular && disk is Some {
        disk->0 as int
    } else {
        sz
    }
}

/// The effective size of an entry: the header size, overridden by a PAX
/// `size` record when one is present, overridden in turn by the on-disk
/// length. `None` when the PAX value is not a decimal `u64`.
pub open spec fn spec_size_result(e: EntryMeta, disk: Option<u64>, uses_source: bool) -> Option<int> {
    match spec_find_pax_size(e.pax@) {
        Some(v) => if spec_all_digits(v) && spec_dec_val(v) <= u64::MAX {
            Some(spec_disk_adjust(spec_dec_val(v), e, disk, uses_source))
        } else {
            None
        },
        None => Some(spec_disk_adjust(e.size as int, e, disk, uses_source)),
    }
}

/// Computes the effective size of `e` for sizing and chunking decisions.
pub fn effective_size(e: &EntryMeta, disk_size: Option<u64>, uses_source: bool) -> (r: Result<
    u64,
    PackError,
>)
    ensures
        r is Ok ==> spec_size_result(*e, disk_size, uses_source) == Some(r->Ok_0 as int),
        r is Err ==> spec_size_result(*e, disk_size, uses_source) is None && r->Err_0
            == PackError::PaxSizeParse,
{
    let mut sz: u64 = e.size;
    let mut i: usize = 0;
    let n = e.pax.len();
    proof {
        assert(e.pax@.subrange(0, n as int) =~= e.pax@);
    }
    while i < n
        invariant
            i <= n,
            n == e.pax@.len(),
            sz == e.size,
            spec_find_pax_size(e.pax@) == spec_find_pax_size(
                e.pax@.subrange(i as int, n as int),
            ),
        decreases n - i,
    {
        let rec = &e.pax[i];
        proof {
            assert(e.pax@.subrange(i as int, n as int)[0] == e.pax@[i as int]);
        }
        if ends_with(rec.key.as_slice(), &[0x73, 0x69, 0x7a, 0x65]) {
            assert(spec_find_pax_size(e.pax@) == Some(e.pax@[i as int].value@));
            match parse_u64_dec(rec.value.as_slice()) {
                Some(v) => {
                    sz = v;
                    i = n;
                    assert(spec_find_pax_size(e.pax@) == Some(rec.value@));
                    return Ok(apply_disk_adjust(sz, e, disk_size, uses_source));
                },
                None => {
                    return Err(PackError::PaxSizeParse);
                },
            }
        }
        proof {
            assert(e.pax@.subrange(i as int, n as int).drop_first() =~= e.pax@.subrange(
                i + 1,
                n as int,
            ));
        }
        i += 1;
    }
    proof {
        assert(e.pax@.subrange(n as int, n as int) =~= Seq::<PaxRecord>::empty());
    }
    Ok(apply_disk_adjust(sz, e, disk_size, uses_source))
}

fn apply_disk_adjust(sz: u64, e: &EntryMeta, disk_size: Option<u64>, uses_source: bool) -> (r: u64)
    ensures
        r as int == spec_disk_adjust(sz as int, *e, disk_size, uses_source),
{
    if uses_source && matches!(e.kind, EntryKind::Regular) {
        if let Some(d) = disk_size {
            return d;
        }
    }
    sz
}

/// Makes a fresh copy of a byte string.
pub fn copy_bytes(v: &[u8]) -> (r: Vec<u8>)
    ensures
        r@ == v@,
{
    let mut out: Vec<u8> = Vec::new();
    push_all(&mut out, v);
    assert(out@ =~= v@);
    out
}

/// Set-style insertion: the path is appended only when absent.
pub open spec fn spec_insert_path(paths: Seq<Seq<u8>>, p: Seq<u8>) -> Seq<Seq<u8>> {
    if paths.contains(p) {
        paths
    } else {
        paths.push(p)
    }
}

fn insert_path(paths: &mut Vec<Vec<u8>>, p: &Vec<u8>)
    ensures
        paths_view(final(paths)@) == spec_insert_path(paths_view(old(paths)@), p@),
{
    if !contains_path(paths, p.as_slice()) {
        let c = copy_bytes(p.as_slice());
        paths.push(c);
        assert(paths_view(paths@) =~= paths_view(old(paths)@).push(p@));
    }
}

impl WView {
    /// Machine bounds the writer keeps between steps.
    pub open spec fn wf(self) -> bool {
        1 <= self.split <= u32::MAX && 0 <= self.bytes < 2 * self.split && 0 <= self.done
    }
}

/// The rollover-and-open prelude of one step: what happens to the state
/// before the entry itself is appended, and the actions it emits.
pub open spec fn spec_lead(s: WView, size: int) -> (Seq<ActionV>, WView) {
    let rolled = s.bytes >= s.split && size > 0;
    let s1 = if rolled {
        WView { is_open: false, bytes: 0, paths: Seq::empty(), done: s.done + 1, ..s }
    } else {
        s
    };
    let opens = !s1.is_open;
    let s2 = if opens {
        WView { is_open: true, ..s1 }
    } else {
        s1
    };
    let acts = (if rolled {
        seq![ActionV::Finish]
    } else {
        Seq::<ActionV>::empty()
    }) + (if opens {
        seq![ActionV::Open { ordinal: s1.done, name: spec_archive_name(s.prefix, s1.done) }]
    } else {
        Seq::<ActionV>::empty()
    });
    (acts, s2)
}

/// The chunking loop of one oversized entry, one recursion step per
/// segment: the actions emitted from `off` on, and the final payload
/// count, archive count and path set.
pub open spec fn spec_chunk_steps(
    path: Seq<u8>,
    uid: int,
    gid: int,
    total: int,
    split: int,
    prefix: Seq<u8>,
    bytes: int,
    done: int,
    paths: Seq<Seq<u8>>,
    off: int,
    seg: int,
) -> (Seq<ActionV>, int, int, Seq<Seq<u8>>)
    decreases total - off
        when 1 <= split
{
    if off >= total {
        (Seq::empty(), bytes, done, paths)
    } else {
        let rolled = bytes >= split;
        let b1 = if rolled { 0 } else { bytes };
        let d1 = if rolled { done + 1 } else { done };
        let p1 = if rolled { Seq::<Seq<u8>>::empty() } else { paths };
        let pre = if rolled {
            seq![
                ActionV::Finish,
                ActionV::Open { ordinal: d1, name: spec_archive_name(prefix, d1) },
            ]
        } else {
            Seq::<ActionV>::empty()
        };
        let rem = total - off;
        let cap = if seg == 0 { split - b1 } else { split };
        let chunk = if rem < cap { rem } else { cap };
        let here = seq![
            ActionV::AppendMetadata {
                name: spec_md_name(path, seg),
                payload: spec_encode_md(path, off, chunk, total),
            },
            ActionV::AppendChunk { path: path, offset: off, len: chunk, uid: uid, gid: gid },
        ];
        let rest = spec_chunk_steps(
            path,
            uid,
            gid,
            total,
            split,
            prefix,
            b1 + chunk,
            d1,
            spec_insert_path(p1, path),
            off + chunk,
            seg + 1,
        );
        (pre + here + rest.0, rest.1, rest.2, rest.3)
    }
}

/// One full step of the writer on entry `e`: either the error it is
/// rejected with, or the actions to perform and the state afterwards.
pub open spec fn spec_write(s: WView, e: EntryMeta, disk: Option<u64>) -> Result<
    (Seq<ActionV>, WView),
    PackError,
> {
    match spec_size_result(e, disk, s.uses_source) {
        None => Err(PackError::PaxSizeParse),
        Some(size) => {
            let lead = spec_lead(s, size);
            let s2 = lead.1;
            if e.kind == EntryKind::Hardlink && e.link_target is None {
                Err(PackError::MissingLinkTarget)
            } else if e.kind == EntryKind::Hardlink && !s2.paths.contains(e.link_target->0@) {
                Err(PackError::HardLinkTargetAbsent)
            } else {
                let s3 = WView { paths: spec_insert_path(s2.paths, e.path@), ..s2 };
                if size <= s.split {
                    Ok(
                        (
                            lead.0 + seq![ActionV::AppendWhole { path: e.path@, size: size }],
                            WView { bytes: s3.bytes + size, ..s3 },
                        ),
                    )
                } else if size > u32::MAX {
                    Err(PackError::FileTooLarge)
                } else {
                    let c = spec_chunk_steps(
                        e.path@,
                        e.uid as int,
                        e.gid as int,
                        size,
                        s.split,
                        s.prefix,
                        s3.bytes,
                        s3.done,
                        s3.paths,
                        0,
                        0,
                    );
                    Ok((lead.0 + c.0, WView { bytes: c.1, done: c.2, paths: c.3, ..s3 }))
                }
            }
        },
    }
}

impl WriterState {
    /// Validates the configuration and builds a fresh writer.
    ///
    /// The compression name must be one of `zstd`, `gzip`, `none`;
    /// `split_size` must be at least 1 and fit the u32 fields of the
    /// split-metadata schema.
    pub fn new(
        split_size: u64,
        prefix: Vec<u8>,
        compression: Vec<u8>,
        source_dir: Option<Vec<u8>>,
    ) -> (r: Result<WriterState, PackError>)
        ensures
            r is Ok <==> ((compression@ == lit_zstd() || compression@ == lit_gzip()
                || compression@ == lit_none()) && 1 <= split_size <= u32::MAX),
            r is Err && !(compression@ == lit_zstd() || compression@ == lit_gzip()
                || compression@ == lit_none()) ==> r->Err_0 == PackError::BadCompression,
            r is Err && (compression@ == lit_zstd() || compression@ == lit_gzip()
                || compression@ == lit_none()) ==> r->Err_0 == PackError::BadSplitSize,
            r is Ok ==> r->Ok_0@ == (WView {
                split: split_size as int,
                prefix: prefix@,
                is_open: false,
                bytes: 0,
                paths: Seq::empty(),
                done: 0,
                uses_source: source_dir is Some,
            }) && r->Ok_0@.wf() && r->Ok_0.compression@ == compression@,
    {
        let comp_ok = bytes_eq(compression.as_slice(), &[0x7a, 0x73, 0x74, 0x64]) || bytes_eq(
            compression.as_slice(),
            &[0x67, 0x7a, 0x69, 0x70],
        ) || bytes_eq(compression.as_slice(), &[0x6e, 0x6f, 0x6e, 0x65]);
        if !comp_ok {
            return Err(PackError::BadCompression);
        }
        if split_size == 0 || split_size > 0xffff_ffff {
            return Err(PackError::BadSplitSize);
        }
        let s = WriterState {
            split_size,
            prefix,
            compression,
            archive_open: false,
            bytes_in_current: 0,
            paths_in_current: Vec::new(),
            completed: 0,
            source_dir,
        };
        assert(s@.paths =~= Seq::<Seq<u8>>::empty());
        Ok(s)
    }

    /// Closes the run: the state is reset and the archive count stepped,
    /// and a [`PackAction::Finish`] is returned exactly when an archive
    /// was open.
    pub fn finish_current(&mut self) -> (r: Option<PackAction>)
        requires
            old(self).completed < u64::MAX,
        ensures
            final(self)@ == (WView {
                is_open: false,
                bytes: 0,
                paths: Seq::empty(),
                done: old(self)@.done + 1,
                ..old(self)@
            }),
            r is Some <==> old(self)@.is_open,
            r is Some ==> r->0@ == ActionV::Finish,
            final(self).compression@ == old(self).compression@,
    {
        let r = if self.archive_open {
            Some(PackAction::Finish)
        } else {
            None
        };
        self.archive_open = false;
        self.bytes_in_current = 0;
        self.paths_in_current.clear();
        self.completed = self.completed + 1;
        assert(self@.paths =~= Seq::<Seq<u8>>::empty());
        r
    }

    /// One step of the writer on entry `e`.
    ///
    /// `disk_size` is the on-disk length of the staged copy of `e`, when a
    /// staging directory is configured and the caller looked it up.
    /// The result and the state change are exactly those of
    /// [`spec_write`]: the errors come in its order and leave the writer
    /// untouched, and on success the returned actions, performed in
    /// order, put the entry into the numbered archives.
    pub fn write(&mut self, e: &EntryMeta, disk_size: Option<u64>) -> (r: Result<
        Vec<PackAction>,
        PackError,
    >)
        requires
            old(self)@.wf(),
            old(self).completed < 0x7fff_ffff_ffff_ffff,
        ensures
            final(self)@.wf(),
            spec_write(old(self)@, *e, disk_size) is Err ==> r is Err && *final(self)
                == *old(self) && r->Err_0 == spec_write(old(self)@, *e, disk_size)->Err_0,
            spec_write(old(self)@, *e, disk_size) is Ok ==> r is Ok && acts_view(r->Ok_0@)
                == spec_write(old(self)@, *e, disk_size)->Ok_0.0 && final(self)@ == spec_write(
                old(self)@,
                *e,
                disk_size,
            )->Ok_0.1,
            final(self).compression@ == old(self).compression@,
    {
        let ghost sv = self@;
        let uses_source = self.source_dir.is_some();
        let size = match effective_size(e, disk_size, uses_source) {
            Ok(v) => v,
            Err(er) => {
                return Err(er);
            },
        };
        let ghost lead = spec_lead(sv, size as int);
        let rolled = self.bytes_in_current >= self.split_size && size > 0;
        if matches!(e.kind, EntryKind::Hardlink) {
            match &e.link_target {
                None => {
                    return Err(PackError::MissingLinkTarget);
                },
                Some(t) => {
                    let present = if rolled {
                        false
                    } else {
                        contains_path(&self.paths_in_current, t.as_slice())
                    };
                    if !present {
                        return Err(PackError::HardLinkTargetAbsent);
                    }
                },
            }
        }
        if size > self.split_size && size > 0xffff_ffff {
            return Err(PackError::FileTooLarge);
        }

        let mut acts: Vec<PackAction> = Vec::new();
        if rolled {
            acts.push(PackAction::Finish);
            self.archive_open = false;
            self.bytes_in_current = 0;
            self.paths_in_current.clear();
            self.completed = self.completed + 1;
        }
        if !self.archive_open {
            let name = make_archive_name(self.prefix.as_slice(), self.completed);
            acts.push(PackAction::Open { ordinal: self.completed, name });
            self.archive_open = true;
        }
        proof {
            assert(paths_view(Seq::<Vec<u8>>::empty()) =~= Seq::<Seq<u8>>::empty());
            assert(self@.split == lead.1.split);
            assert(self@.prefix == lead.1.prefix);
            assert(self@.is_open == lead.1.is_open);
            assert(self@.bytes == lead.1.bytes);
            assert(self@.paths == lead.1.paths);
            assert(self@.done == lead.1.done);
            assert(self@.uses_source == lead.1.uses_source);
            assert(self@ == lead.1);
            assert(acts_view(acts@) =~= lead.0);
        }
        insert_path(&mut self.paths_in_current, &e.path);
        let ghost s3 = (WView { paths: spec_insert_path(lead.1.paths, e.path@), ..lead.1 });
        proof {
            assert(self@ == s3);
        }
        if size <= self.split_size {
            let p = copy_bytes(e.path.as_slice());
            acts.push(PackAction::AppendWhole { path: p, size });
            self.bytes_in_current = self.bytes_in_current + size;
            proof {
                assert(acts_view(acts@) =~= lead.0 + seq![
                    ActionV::AppendWhole { path: e.path@, size: size as int },
                ]);
                assert(self@ == (WView { bytes: s3.bytes + size, ..s3 }));
            }
            return Ok(acts);
        }

        // The chunking loop: fill the open archive first, then one
        // split-size chunk per archive, the last chunk taking what is
        // left.
        let ghost c_full = spec_chunk_steps(
            e.path@,
            e.uid as int,
            e.gid as int,
            size as int,
            sv.split,
            sv.prefix,
            s3.bytes,
            s3.done,
            s3.paths,
            0,
            0,
        );
        let total = size;
        let room = self.split_size - self.bytes_in_current;
        proof {
            assert(acts_view(acts@).skip(lead.0.len() as int) =~= Seq::<ActionV>::empty());
            assert(c_full.0 =~= Seq::<ActionV>::empty() + c_full.0);
            assert(acts_view(acts@).take(lead.0.len() as int) =~= lead.0);
        }
        let ghost c0 = old(self)@.done;
        let mut seg: u64 = 0;
        let mut off: u64 = 0;
        let mut remaining = total;
        while remaining > 0
            invariant
                self.split_size as int == sv.split,
                1 <= sv.split <= u32::MAX,
                self.prefix@ == sv.prefix,
                self.compression@ == old(self).compression@,
                (self.source_dir is Some) == sv.uses_source,
                self.archive_open,
                self.bytes_in_current <= self.split_size,
                remaining > 0 && seg >= 1 ==> self.bytes_in_current == self.split_size,
                off + remaining == total,
                seg <= off || (seg == 0 && off == 0),
                (seg == 0 <==> off == 0),
                seg == 0 ==> self.bytes_in_current as int == s3.bytes && room as int == sv.split
                    - s3.bytes && s3.bytes < sv.split,
                total <= 0xffff_ffff,
                total as int > sv.split,
                c0 < 0x7fff_ffff_ffff_ffff,
                self.completed as int <= c0 + 2 + seg as int,
                self.completed as int >= 0,
                c_full.0 == acts_view(acts@).skip(lead.0.len() as int) + spec_chunk_steps(
                    e.path@,
                    e.uid as int,
                    e.gid as int,
                    total as int,
                    sv.split,
                    sv.prefix,
                    self.bytes_in_current as int,
                    self.completed as int,
                    paths_view(self.paths_in_current@),
                    off as int,
                    seg as int,
                ).0,
                c_full.1 == spec_chunk_steps(
                    e.path@,
                    e.uid as int,
                    e.gid as int,
                    total as int,
                    sv.split,
                    sv.prefix,
                    self.bytes_in_current as int,
                    self.completed as int,
                    paths_view(self.paths_in_current@),
                    off as int,
                    seg as int,
                ).1,
                c_full.2 == spec_chunk_steps(
                    e.path@,
                    e.uid as int,
                    e.gid as int,
                    total as int,
                    sv.split,
                    sv.prefix,
                    self.bytes_in_current as int,
                    self.completed as int,
                    paths_view(self.paths_in_current@),
                    off as int,
                    seg as int,
                ).2,
                c_full.3 == spec_chunk_steps(
                    e.path@,
                    e.uid as int,
                    e.gid as int,
                    total as int,
                    sv.split,
                    sv.prefix,
                    self.bytes_in_current as int,
                    self.completed as int,
                    paths_view(self.paths_in_current@),
                    off as int,
                    seg as int,
                ).3,
                acts_view(acts@).take(lead.0.len() as int) == lead.0,
                lead.0.len() <= acts_view(acts@).len(),
            decreases remaining,
        {
            let ghost cur = spec_chunk_steps(
                e.path@,
                e.uid as int,
                e.gid as int,
                total as int,
                sv.split,
                sv.prefix,
                self.bytes_in_current as int,
                self.completed as int,
                paths_view(self.paths_in_current@),
                off as int,
                seg as int,
            );
            let ghost acts0 = acts_view(acts@);
            let rolled_here = self.bytes_in_current >= self.split_size;
            if rolled_here {
                acts.push(PackAction::Finish);
                self.archive_open = false;
                self.bytes_in_current = 0;
                self.paths_in_current.clear();
                self.completed = self.completed + 1;
                let name = make_archive_name(self.prefix.as_slice(), self.completed);
                acts.push(PackAction::Open { ordinal: self.completed, name });
                self.archive_open = true;
            }
            let mut chunk: u64 = if remaining < self.split_size {
                remaining
            } else {
                self.split_size
            };
            if seg == 0 {
                if room < chunk {
                    chunk = room;
                }
            }
            let md = SplitMetadata {
                path: copy_bytes(e.path.as_slice()),
                start_offset: off as u32,
                chunk_size: chunk as u32,
                total_size: total,
            };
            let payload = encode_split_metadata(&md);
            let name = make_md_name(e.path.as_slice(), seg);
            acts.push(PackAction::AppendMetadata { name, payload });
            let p = copy_bytes(e.path.as_slice());
            acts.push(PackAction::AppendChunk {
                path: p,
                offset: off,
                len: chunk,
                uid: e.uid,
                gid: e.gid,
            });
            insert_path(&mut self.paths_in_current, &e.path);
            self.bytes_in_current = self.bytes_in_current + chunk;
            proof {
                assert(paths_view(Seq::<Vec<u8>>::empty()) =~= Seq::<Seq<u8>>::empty());
                let next = spec_chunk_steps(
                    e.path@,
                    e.uid as int,
                    e.gid as int,
                    total as int,
                    sv.split,
                    sv.prefix,
                    self.bytes_in_current as int,
                    self.completed as int,
                    paths_view(self.paths_in_current@),
                    off + chunk,
                    seg + 1,
                );
                let pre: Seq<ActionV> = if rolled_here {
                    seq![
                        ActionV::Finish,
                        ActionV::Open {
                            ordinal: self.completed as int,
                            name: spec_archive_name(sv.prefix, self.completed as int),
                        },
                    ]
                } else {
                    Seq::<ActionV>::empty()
                };
                let here = seq![
                    ActionV::AppendMetadata {
                        name: spec_md_name(e.path@, seg as int),
                        payload: spec_encode_md(e.path@, off as int, chunk as int, total as int),
                    },
                    ActionV::AppendChunk {
                        path: e.path@,
                        offset: off as int,
                        len: chunk as int,
                        uid: e.uid as int,
                        gid: e.gid as int,
                    },
                ];
                assert(cur.0 =~= pre + here + next.0);
                assert(cur.1 == next.1 && cur.2 == next.2 && cur.3 == next.3);
                assert(acts_view(acts@) =~= acts0 + pre + here);
                let l = lead.0.len() as int;
                assert(acts_view(acts@).skip(l) =~= acts0.skip(l) + pre + here);
                assert(acts0.skip(l) + cur.0 =~= (acts0.skip(l) + pre + here) + next.0);
                assert(c_full.0 == acts_view(acts@).skip(l) + next.0);
                assert(acts_view(acts@).take(l) =~= acts0.take(l));
                assert(chunk >= 1);
            }
            seg = seg + 1;
            off = off + chunk;
            remaining = remaining - chunk;
        }
        proof {
            let tail = spec_chunk_steps(
                e.path@,
                e.uid as int,
                e.gid as int,
                total as int,
                sv.split,
                sv.prefix,
                self.bytes_in_current as int,
                self.completed as int,
                paths_view(self.paths_in_current@),
                off as int,
                seg as int,
            );
            assert(tail.0 =~= Seq::<ActionV>::empty());
            let l = lead.0.len() as int;
            assert(c_full.0 =~= acts_view(acts@).skip(l));
            assert(acts_view(acts@) =~= acts_view(acts@).take(l) + acts_view(acts@).skip(l));
            assert(acts_view(acts@) =~= lead.0 + c_full.0);
            assert(self@ == (WView { bytes: c_full.1, done: c_full.2, paths: c_full.3, ..s3 }));
        }
        Ok(acts)
    }
}

} // verus!
