//! Laws the writer and unpacker obey, stated over the transition
//! specifications and proved once for all inputs.

use vstd::prelude::*;
use crate::pack::{
    ActionV, EntryKind, EntryMeta, WView, spec_chunk_steps, spec_size_result, spec_write,
};

verus! {

/// The chunk ranges of an action list: `(offset, len)` of each chunk
/// append, in order.
pub open spec fn chunk_ranges(acts: Seq<ActionV>) -> Seq<(int, int)>
    decreases acts.len(),
{
    if acts.len() == 0 {
        Seq::empty()
    } else {
        let rest = chunk_ranges(acts.drop_first());
        match acts[0] {
            ActionV::AppendChunk { path: _p, offset, len, uid: _u, gid: _g } => seq![(offset, len)]
                + rest,
            _ => rest,
        }
    }
}

/// `ch` tiles `[lo, hi)`: each range is nonempty and starts exactly where
/// the previous one ended, and together they end at `hi`.
pub open spec fn spec_tiles(ch: Seq<(int, int)>, lo: int, hi: int) -> bool
    decreases ch.len(),
{
    if ch.len() == 0 {
        lo == hi
    } else {
        ch[0].0 == lo && 1 <= ch[0].1 && lo + ch[0].1 <= hi && spec_tiles(
            ch.drop_first(),
            lo + ch[0].1,
            hi,
        )
    }
}


proof fn lemma_chunk_ranges_none(s: Seq<ActionV>)
    requires
        forall|i: int| 0 <= i < s.len() ==> !(#[trigger] s[i] is AppendChunk),
    ensures
        chunk_ranges(s) == Seq::<(int, int)>::empty(),
    decreases s.len(),
{
    if s.len() > 0 {
        assert(forall|i: int|
            0 <= i < s.drop_first().len() ==> !(#[trigger] s.drop_first()[i] is AppendChunk));
        lemma_chunk_ranges_none(s.drop_first());
        assert(!(s[0] is AppendChunk));
        assert(chunk_ranges(s) =~= Seq::<(int, int)>::empty());
    }
}

proof fn lemma_chunk_ranges_concat(a: Seq<ActionV>, b: Seq<ActionV>)
    ensures
        chunk_ranges(a + b) == chunk_ranges(a) + chunk_ranges(b),
    decreases a.len(),
{
    if a.len() == 0 {
        assert(a + b =~= b);
        assert(chunk_ranges(a) + chunk_ranges(b) =~= chunk_ranges(b));
    } else {
        assert((a + b).drop_first() =~= a.drop_first() + b);
        lemma_chunk_ranges_concat(a.drop_first(), b);
        assert((a + b)[0] == a[0]);
        match a[0] {
            ActionV::AppendChunk { path: _p, offset, len, uid: _u, gid: _g } => {
                assert(chunk_ranges(a + b) =~= chunk_ranges(a) + chunk_ranges(b));
            },
            _ => {
                assert(chunk_ranges(a + b) =~= chunk_ranges(a) + chunk_ranges(b));
            },
        }
    }
}

/// The chunking recursion emits chunks that tile `[off, total)` exactly:
/// no gap, no overlap, nothing outside.
pub proof fn lemma_chunk_steps_tile(
    path: Seq<u8>,
    uid: int,
    gid: int,
    total: int,
    split: int,
    prefix: Seq<u8>,
    bytes: int,
    done: int,
    paths: Seq<Seq<u8>>,
    off: int,
    seg: int,
)
    requires
        1 <= split,
        0 <= off <= total,
        0 <= bytes,
    ensures
        spec_tiles(
            chunk_ranges(
                spec_chunk_steps(
                    path,
                    uid,
                    gid,
                    total,
                    split,
                    prefix,
                    bytes,
                    done,
                    paths,
                    off,
                    seg,
                ).0,
            ),
            off,
            total,
        ),
    decreases total - off,
{
    let c = spec_chunk_steps(path, uid, gid, total, split, prefix, bytes, done, paths, off, seg);
    if off >= total {
        assert(chunk_ranges(c.0) =~= Seq::<(int, int)>::empty());
    } else {
        let rolled = bytes >= split;
        let b1: int = if rolled { 0 } else { bytes };
        let d1: int = if rolled { done + 1 } else { done };
        let p1 = if rolled { Seq::<Seq<u8>>::empty() } else { paths };
        let rem = total - off;
        let cap: int = if seg == 0 { split - b1 } else { split };
        let chunk: int = if rem < cap { rem } else { cap };
        let pre: Seq<ActionV> = if rolled {
            seq![
                ActionV::Finish,
                ActionV::Open { ordinal: d1, name: crate::pack::spec_archive_name(prefix, d1) },
            ]
        } else {
            Seq::<ActionV>::empty()
        };
        let here = seq![
            ActionV::AppendMetadata {
                name: crate::pack::spec_md_name(path, seg),
                payload: crate::metadata::spec_encode_md(path, off, chunk, total),
            },
            ActionV::AppendChunk { path: path, offset: off, len: chunk, uid: uid, gid: gid },
        ];
        let rest = spec_chunk_steps(
            path,
            uid,
            gid,
            total,
            split,
            prefix,
            b1 + chunk,
            d1,
            crate::pack::spec_insert_path(p1, path),
            off + chunk,
            seg + 1,
        );
        assert(c.0 == pre + here + rest.0);
        lemma_chunk_ranges_concat(pre, here);
        lemma_chunk_ranges_concat(pre + here, rest.0);
        lemma_chunk_ranges_none(pre);
        assert(here.drop_first() =~= seq![
            ActionV::AppendChunk { path: path, offset: off, len: chunk, uid: uid, gid: gid },
        ]);
        assert(here.drop_first().drop_first() =~= Seq::<ActionV>::empty());
        assert(chunk_ranges(here.drop_first().drop_first()) == Seq::<(int, int)>::empty());
        assert(chunk_ranges(here.drop_first()) =~= seq![(off, chunk)]);
        assert(chunk_ranges(here) =~= seq![(off, chunk)]);
        lemma_chunk_steps_tile(
            path,
            uid,
            gid,
            total,
            split,
            prefix,
            b1 + chunk,
            d1,
            crate::pack::spec_insert_path(p1, path),
            off + chunk,
            seg + 1,
        );
        assert(chunk_ranges(c.0) =~= seq![(off, chunk)] + chunk_ranges(rest.0));
        assert((seq![(off, chunk)] + chunk_ranges(rest.0)).drop_first() =~= chunk_ranges(rest.0));
    }
}

/// The chunks of an accepted oversized entry tile `[0, size)` exactly:
/// their union rebuilds the whole file, with no gap and no overlap.
pub proof fn lemma_write_chunks_tile(s: WView, e: EntryMeta, disk: Option<u64>)
    requires
        s.wf(),
        spec_write(s, e, disk) is Ok,
        spec_size_result(e, disk, s.uses_source) is Some,
        spec_size_result(e, disk, s.uses_source)->0 > s.split,
    ensures
        spec_tiles(
            chunk_ranges(spec_write(s, e, disk)->Ok_0.0),
            0,
            spec_size_result(e, disk, s.uses_source)->0,
        ),
{
    let size = spec_size_result(e, disk, s.uses_source)->0;
    let lead = crate::pack::spec_lead(s, size);
    let s2 = lead.1;
    let s3 = WView { paths: crate::pack::spec_insert_path(s2.paths, e.path@), ..s2 };
    lemma_chunk_steps_tile(
        e.path@,
        e.uid as int,
        e.gid as int,
        size,
        s.split,
        s.prefix,
        s3.bytes,
        s3.done,
        s3.paths,
        0,
        0,
    );
    let c = spec_chunk_steps(
        e.path@,
        e.uid as int,
        e.gid as int,
        size,
        s.split,
        s.prefix,
        s3.bytes,
        s3.done,
        s3.paths,
        0,
        0,
    );
    lemma_chunk_ranges_concat(lead.0, c.0);
    assert(forall|i: int| 0 <= i < lead.0.len() ==> !(#[trigger] lead.0[i] is AppendChunk));
    lemma_chunk_ranges_none(lead.0);
    assert(chunk_ranges(lead.0 + c.0) =~= chunk_ranges(c.0));
}

/// Ranges of a tiling are pairwise disjoint and lie inside `[lo, hi)`.
pub proof fn lemma_tiles_disjoint(ch: Seq<(int, int)>, lo: int, hi: int)
    requires
        spec_tiles(ch, lo, hi),
    ensures
        forall|i: int, j: int| #![trigger ch[i], ch[j]]
            0 <= i < j < ch.len() ==> ch[i].0 + ch[i].1 <= ch[j].0,
        forall|i: int| #![trigger ch[i]]
            0 <= i < ch.len() ==> lo <= ch[i].0 && ch[i].0 + ch[i].1 <= hi,
    decreases ch.len(),
{
    if ch.len() > 0 {
        let rest = ch.drop_first();
        lemma_tiles_disjoint(rest, lo + ch[0].1, hi);
        assert(forall|k: int| 1 <= k < ch.len() ==> ch[k] == #[trigger] rest[k - 1]);
        assert forall|i: int| #![trigger ch[i]]
            0 <= i < ch.len() implies lo <= ch[i].0 && ch[i].0 + ch[i].1 <= hi by {
            if i >= 1 {
                assert(ch[i] == rest[i - 1]);
            }
        };
        assert forall|i: int, j: int| #![trigger ch[i], ch[j]]
            0 <= i < j < ch.len() implies ch[i].0 + ch[i].1 <= ch[j].0 by {
            assert(ch[j] == rest[j - 1]);
            if i == 0 {
                assert(lo + ch[0].1 <= rest[j - 1].0);
            } else {
                assert(ch[i] == rest[i - 1]);
            }
        };
    }
}

/// A hardlink is accepted only with its target already among the paths of
/// the archive it goes into, and its own append closes no archive: target
/// and link land in the same output archive.
pub proof fn lemma_hardlink_locality(s: WView, e: EntryMeta, disk: Option<u64>)
    requires
        s.wf(),
        e.kind == EntryKind::Hardlink,
        spec_write(s, e, disk) is Ok,
        spec_size_result(e, disk, s.uses_source)->0 <= s.split,
    ensures
        s.paths.contains(e.link_target->0@),
        forall|i: int|
            0 <= i < spec_write(s, e, disk)->Ok_0.0.len() ==> #[trigger] spec_write(
                s,
                e,
                disk,
            )->Ok_0.0[i] != ActionV::Finish,
        spec_write(s, e, disk)->Ok_0.1.paths.contains(e.path@),
{
    let size = spec_size_result(e, disk, s.uses_source)->0;
    let lead = crate::pack::spec_lead(s, size);
    let rolled = s.bytes >= s.split && size > 0;
    if rolled {
        assert(lead.1.paths =~= Seq::<Seq<u8>>::empty());
        assert(!lead.1.paths.contains(e.link_target->0@));
        assert(false);
    }
    let acts = spec_write(s, e, disk)->Ok_0.0;
    assert(acts == lead.0 + seq![ActionV::AppendWhole { path: e.path@, size: size }]);
    assert(forall|i: int| 0 <= i < acts.len() ==> #[trigger] acts[i] != ActionV::Finish);
    let s3paths = crate::pack::spec_insert_path(lead.1.paths, e.path@);
    assert(s3paths.contains(e.path@)) by {
        if !lead.1.paths.contains(e.path@) {
            assert(s3paths.last() == e.path@);
        }
    }
}

/// The soft size bound, for an entry that fits one archive: after the
/// step, the open archive's payload is below `split_size` plus the size
/// of the entry it just took.
pub proof fn lemma_soft_size_bound(s: WView, e: EntryMeta, disk: Option<u64>)
    requires
        s.wf(),
        spec_write(s, e, disk) is Ok,
        spec_size_result(e, disk, s.uses_source) is Some,
        0 < spec_size_result(e, disk, s.uses_source)->0 <= s.split,
    ensures
        spec_write(s, e, disk)->Ok_0.1.bytes < s.split + spec_size_result(e, disk, s.uses_source)->0,
{
    let size = spec_size_result(e, disk, s.uses_source)->0;
    let rolled = s.bytes >= s.split && size > 0;
    if !rolled {
        assert(s.bytes < s.split);
    }
}

/// The soft size bound, for a chunked entry: the archives it fills are
/// closed at exactly `split_size`, and what stays open holds at most
/// `split_size`.
pub proof fn lemma_chunk_bytes_bound(
    path: Seq<u8>,
    uid: int,
    gid: int,
    total: int,
    split: int,
    prefix: Seq<u8>,
    bytes: int,
    done: int,
    paths: Seq<Seq<u8>>,
    off: int,
    seg: int,
)
    requires
        1 <= split,
        0 <= off <= total,
        0 <= bytes <= split,
        off < total && seg != 0 ==> bytes == split,
    ensures
        spec_chunk_steps(path, uid, gid, total, split, prefix, bytes, done, paths, off, seg).1
            <= split,
    decreases total - off,
{
    if off < total {
        let rolled = bytes >= split;
        let b1: int = if rolled { 0 } else { bytes };
        let rem = total - off;
        let cap: int = if seg == 0 { split - b1 } else { split };
        let chunk: int = if rem < cap { rem } else { cap };
        lemma_chunk_bytes_bound(
            path,
            uid,
            gid,
            total,
            split,
            prefix,
            b1 + chunk,
            (if rolled { done + 1 } else { done }),
            crate::pack::spec_insert_path(
                (if rolled { Seq::<Seq<u8>>::empty() } else { paths }),
                path,
            ),
            off + chunk,
            seg + 1,
        );
    }
}

/// P4 for a chunked entry, at the write step.
pub proof fn lemma_write_chunk_bytes(s: WView, e: EntryMeta, disk: Option<u64>)
    requires
        s.wf(),
        spec_write(s, e, disk) is Ok,
        spec_size_result(e, disk, s.uses_source) is Some,
        spec_size_result(e, disk, s.uses_source)->0 > s.split,
    ensures
        spec_write(s, e, disk)->Ok_0.1.bytes <= s.split,
{
    let size = spec_size_result(e, disk, s.uses_source)->0;
    let lead = crate::pack::spec_lead(s, size);
    let s2 = lead.1;
    let s3 = WView { paths: crate::pack::spec_insert_path(s2.paths, e.path@), ..s2 };
    lemma_chunk_bytes_bound(
        e.path@,
        e.uid as int,
        e.gid as int,
        size,
        s.split,
        s.prefix,
        s3.bytes,
        s3.done,
        s3.paths,
        0,
        0,
    );
}

/// What one step's actions do to the set of paths in the open archive:
/// closing an archive empties it, appending an entry or a chunk adds its
/// path, everything else leaves it alone.
pub open spec fn spec_paths_fold(acts: Seq<ActionV>, paths0: Seq<Seq<u8>>) -> Seq<Seq<u8>>
    decreases acts.len(),
{
    if acts.len() == 0 {
        paths0
    } else {
        let p1 = match acts[0] {
            ActionV::Finish => Seq::<Seq<u8>>::empty(),
            ActionV::AppendWhole { path, size: _s } => crate::pack::spec_insert_path(
                paths0,
                path,
            ),
            ActionV::AppendChunk { path, offset: _o, len: _l, uid: _u, gid: _g } => {
                crate::pack::spec_insert_path(paths0, path)
            },
            _ => paths0,
        };
        spec_paths_fold(acts.drop_first(), p1)
    }
}

proof fn lemma_paths_fold_concat(a: Seq<ActionV>, b: Seq<ActionV>, p: Seq<Seq<u8>>)
    ensures
        spec_paths_fold(a + b, p) == spec_paths_fold(b, spec_paths_fold(a, p)),
    decreases a.len(),
{
    if a.len() == 0 {
        assert(a + b =~= b);
    } else {
        assert((a + b).drop_first() =~= a.drop_first() + b);
        assert((a + b)[0] == a[0]);
        let p1 = spec_paths_fold(a.subrange(0, 1), p);
        match a[0] {
            ActionV::Finish => {
                lemma_paths_fold_concat(a.drop_first(), b, Seq::<Seq<u8>>::empty());
            },
            ActionV::AppendWhole { path, size: _s } => {
                lemma_paths_fold_concat(a.drop_first(), b, crate::pack::spec_insert_path(p, path));
            },
            ActionV::AppendChunk { path, offset: _o, len: _l, uid: _u, gid: _g } => {
                lemma_paths_fold_concat(a.drop_first(), b, crate::pack::spec_insert_path(p, path));
            },
            _ => {
                lemma_paths_fold_concat(a.drop_first(), b, p);
            },
        }
    }
}

proof fn lemma_chunk_steps_paths(
    path: Seq<u8>,
    uid: int,
    gid: int,
    total: int,
    split: int,
    prefix: Seq<u8>,
    bytes: int,
    done: int,
    paths: Seq<Seq<u8>>,
    off: int,
    seg: int,
)
    requires
        1 <= split,
        0 <= off <= total,
    ensures
        ({
            let c = spec_chunk_steps(path, uid, gid, total, split, prefix, bytes, done, paths, off, seg);
            spec_paths_fold(c.0, paths) == c.3
        }),
    decreases total - off,
{
    reveal_with_fuel(spec_paths_fold, 4);
    let c = spec_chunk_steps(path, uid, gid, total, split, prefix, bytes, done, paths, off, seg);
    if off >= total {
    } else {
        let rolled = bytes >= split;
        let b1: int = if rolled { 0 } else { bytes };
        let d1: int = if rolled { done + 1 } else { done };
        let p1 = if rolled { Seq::<Seq<u8>>::empty() } else { paths };
        let rem = total - off;
        let cap: int = if seg == 0 { split - b1 } else { split };
        let chunk: int = if rem < cap { rem } else { cap };
        let pre: Seq<ActionV> = if rolled {
            seq![
                ActionV::Finish,
                ActionV::Open { ordinal: d1, name: crate::pack::spec_archive_name(prefix, d1) },
            ]
        } else {
            Seq::<ActionV>::empty()
        };
        let here = seq![
            ActionV::AppendMetadata {
                name: crate::pack::spec_md_name(path, seg),
                payload: crate::metadata::spec_encode_md(path, off, chunk, total),
            },
            ActionV::AppendChunk { path: path, offset: off, len: chunk, uid: uid, gid: gid },
        ];
        let p2 = crate::pack::spec_insert_path(p1, path);
        let rest = spec_chunk_steps(
            path,
            uid,
            gid,
            total,
            split,
            prefix,
            b1 + chunk,
            d1,
            p2,
            off + chunk,
            seg + 1,
        );
        assert(c.0 == pre + here + rest.0);
        lemma_paths_fold_concat(pre + here, rest.0, paths);
        lemma_paths_fold_concat(pre, here, paths);
        assert(spec_paths_fold(pre, paths) == p1) by {
            if rolled {
                assert(pre.drop_first() =~= seq![
                    ActionV::Open {
                        ordinal: d1,
                        name: crate::pack::spec_archive_name(prefix, d1),
                    },
                ]);
                assert(pre.drop_first().drop_first() =~= Seq::<ActionV>::empty());
            }
        }
        assert(spec_paths_fold(here, p1) == p2) by {
            assert(here.drop_first() =~= seq![
                ActionV::AppendChunk { path: path, offset: off, len: chunk, uid: uid, gid: gid },
            ]);
            assert(here.drop_first().drop_first() =~= Seq::<ActionV>::empty());
        }
        lemma_chunk_steps_paths(
            path,
            uid,
            gid,
            total,
            split,
            prefix,
            b1 + chunk,
            d1,
            p2,
            off + chunk,
            seg + 1,
        );
    }
}

/// The writer's path set is exactly what its actions say was put into the
/// archive that is open after the step: emptied at each archive close,
/// extended by each appended path. A hardlink target found in the set was
/// therefore appended to the same archive, earlier.
pub proof fn lemma_paths_track_actions(s: WView, e: EntryMeta, disk: Option<u64>)
    requires
        s.wf(),
        spec_write(s, e, disk) is Ok,
    ensures
        spec_write(s, e, disk)->Ok_0.1.paths == spec_paths_fold(
            spec_write(s, e, disk)->Ok_0.0,
            s.paths,
        ),
{
    reveal_with_fuel(spec_paths_fold, 4);
    let size = spec_size_result(e, disk, s.uses_source)->0;
    let lead = crate::pack::spec_lead(s, size);
    let rolled = s.bytes >= s.split && size > 0;
    let s3paths = crate::pack::spec_insert_path(lead.1.paths, e.path@);
    assert(spec_paths_fold(lead.0, s.paths) == lead.1.paths) by {
        if rolled {
            let opn = ActionV::Open {
                ordinal: s.done + 1,
                name: crate::pack::spec_archive_name(s.prefix, s.done + 1),
            };
            assert(lead.0 =~= seq![ActionV::Finish, opn]);
            assert(lead.0.drop_first() =~= seq![opn]);
            assert(lead.0.drop_first().drop_first() =~= Seq::<ActionV>::empty());
            assert(lead.1.paths =~= Seq::<Seq<u8>>::empty());
        } else if !s.is_open {
            let opn = ActionV::Open {
                ordinal: s.done,
                name: crate::pack::spec_archive_name(s.prefix, s.done),
            };
            assert(lead.0 =~= seq![opn]);
            assert(lead.0.drop_first() =~= Seq::<ActionV>::empty());
        } else {
            assert(lead.0 =~= Seq::<ActionV>::empty());
        }
    }
    assert(s3paths.contains(e.path@)) by {
        if !lead.1.paths.contains(e.path@) {
            assert(s3paths.last() == e.path@);
        }
    }
    if size <= s.split {
        let app = seq![ActionV::AppendWhole { path: e.path@, size: size }];
        lemma_paths_fold_concat(lead.0, app, s.paths);
        assert(app.drop_first() =~= Seq::<ActionV>::empty());
    } else {
        let c = spec_chunk_steps(
            e.path@,
            e.uid as int,
            e.gid as int,
            size,
            s.split,
            s.prefix,
            lead.1.bytes,
            lead.1.done,
            s3paths,
            0,
            0,
        );
        lemma_paths_fold_concat(lead.0, c.0, s.paths);
        // The first segment does not roll: the prelude left the payload
        // below the trigger.
        assert(lead.1.bytes < s.split);
        let b1 = lead.1.bytes;
        let cap = s.split - b1;
        let chunk: int = if size < cap { size } else { cap };
        let here = seq![
            ActionV::AppendMetadata {
                name: crate::pack::spec_md_name(e.path@, 0),
                payload: crate::metadata::spec_encode_md(e.path@, 0, chunk, size),
            },
            ActionV::AppendChunk {
                path: e.path@,
                offset: 0,
                len: chunk,
                uid: e.uid as int,
                gid: e.gid as int,
            },
        ];
        assert(crate::pack::spec_insert_path(s3paths, e.path@) == s3paths);
        let rest = spec_chunk_steps(
            e.path@,
            e.uid as int,
            e.gid as int,
            size,
            s.split,
            s.prefix,
            b1 + chunk,
            lead.1.done,
            s3paths,
            chunk,
            1,
        );
        assert(c.0 =~= here + rest.0);
        assert(c.3 == rest.3);
        lemma_paths_fold_concat(here, rest.0, lead.1.paths);
        assert(spec_paths_fold(here, lead.1.paths) == s3paths) by {
            assert(here.drop_first() =~= seq![
                ActionV::AppendChunk {
                    path: e.path@,
                    offset: 0,
                    len: chunk,
                    uid: e.uid as int,
                    gid: e.gid as int,
                },
            ]);
            assert(here.drop_first().drop_first() =~= Seq::<ActionV>::empty());
        }
        lemma_chunk_steps_paths(
            e.path@,
            e.uid as int,
            e.gid as int,
            size,
            s.split,
            s.prefix,
            b1 + chunk,
            lead.1.done,
            s3paths,
            chunk,
            1,
        );
    }
}

} // verus!
