//! The split-metadata record: the reconstruction plan for one chunk of a
//! file that was sliced across several output archives.
//!
//! A record is carried inside an archive as the payload of a synthetic tar
//! entry, serialized as the JSON object
//! `{"path":…,"start_offset":…,"chunk_size":…,"total_size":…}`.
//! `spec_encode_md` pins the serialization down byte for byte; the encoder
//! and the parser are proved against it, so a record survives the trip
//! through an archive unchanged.

use vstd::prelude::*;
use crate::bytes::push_all;
use crate::hex::{spec_hex_digit, hex_digit};
use crate::num::{spec_dec, spec_dec_at, push_dec};

verus! {

/// The reconstruction plan for one chunk: which file it belongs to, where
/// the chunk starts, how long it is, and the size of the whole file.
pub struct SplitMetadata {
    pub path: Vec<u8>,
    pub start_offset: u32,
    pub chunk_size: u32,
    pub total_size: u64,
}

/// `{"path":"`
pub open spec fn lit_open() -> Seq<u8> {
    seq![0x7bu8, 0x22u8, 0x70u8, 0x61u8, 0x74u8, 0x68u8, 0x22u8, 0x3au8, 0x22u8]
}

/// `","start_offset":` (the quote closing the path string included)
pub open spec fn lit_off() -> Seq<u8> {
    seq![0x22u8, 0x2cu8, 0x22u8, 0x73u8, 0x74u8, 0x61u8, 0x72u8, 0x74u8, 0x5fu8, 0x6fu8,
        0x66u8, 0x66u8, 0x73u8, 0x65u8, 0x74u8, 0x22u8, 0x3au8]
}

/// `,"chunk_size":`
pub open spec fn lit_csz() -> Seq<u8> {
    seq![0x2cu8, 0x22u8, 0x63u8, 0x68u8, 0x75u8, 0x6eu8, 0x6bu8, 0x5fu8, 0x73u8, 0x69u8,
        0x7au8, 0x65u8, 0x22u8, 0x3au8]
}

/// `,"total_size":`
pub open spec fn lit_tot() -> Seq<u8> {
    seq![0x2cu8, 0x22u8, 0x74u8, 0x6fu8, 0x74u8, 0x61u8, 0x6cu8, 0x5fu8, 0x73u8, 0x69u8,
        0x7au8, 0x65u8, 0x22u8, 0x3au8]
}

/// How one path byte appears inside the JSON string: quote and backslash
/// get a backslash escape, control bytes a `\u00XX` escape, anything else
/// stands as itself.
pub open spec fn spec_esc_byte(b: u8) -> Seq<u8> {
    if b == 0x22 {
        seq![0x5cu8, 0x22u8]
    } else if b == 0x5c {
        seq![0x5cu8, 0x5cu8]
    } else if b < 0x20 {
        seq![0x5cu8, 0x75u8, 0x30u8, 0x30u8, spec_hex_digit(b as int / 16), spec_hex_digit(
            b as int % 16,
        )]
    } else {
        seq![b]
    }
}

/// The JSON string-escaped form of `s`.
pub open spec fn spec_escape(s: Seq<u8>) -> Seq<u8>
    decreases s.len(),
{
    if s.len() == 0 {
        Seq::empty()
    } else {
        spec_escape(s.drop_last()) + spec_esc_byte(s.last())
    }
}

/// A byte that needs no escaping.
pub open spec fn spec_plain_byte(b: u8) -> bool {
    b != 0x22 && b != 0x5c && b >= 0x20
}

/// A path with no byte that needs escaping.
pub open spec fn spec_plain(s: Seq<u8>) -> bool {
    forall|i: int| 0 <= i < s.len() ==> spec_plain_byte(#[trigger] s[i])
}

pub proof fn lemma_escape_step(s: Seq<u8>, i: int)
    requires
        0 <= i < s.len(),
    ensures
        spec_escape(s.take(i + 1)) == spec_escape(s.take(i)) + spec_esc_byte(s[i]),
{
    assert(s.take(i + 1).drop_last() =~= s.take(i));
    assert(s.take(i + 1).last() == s[i]);
}

/// Escaping a plain path changes nothing.
pub proof fn lemma_escape_plain(s: Seq<u8>)
    requires
        spec_plain(s),
    ensures
        spec_escape(s) == s,
    decreases s.len(),
{
    if s.len() > 0 {
        assert(spec_plain(s.drop_last()));
        lemma_escape_plain(s.drop_last());
        assert(spec_plain_byte(s.last()));
        assert(spec_escape(s) =~= s);
    }
}

/// Appends the JSON string-escaped form of `s` to `out`.
pub fn escape_into(out: &mut Vec<u8>, s: &[u8])
    ensures
        final(out)@ == old(out)@ + spec_escape(s@),
{
    let mut i: usize = 0;
    while i < s.len()
        invariant
            i <= s.len(),
            out@ == old(out)@ + spec_escape(s@.take(i as int)),
        decreases s.len() - i,
    {
        let c = s[i];
        proof {
            lemma_escape_step(s@, i as int);
        }
        if c == 0x22 {
            out.push(0x5c);
            out.push(0x22);
        } else if c == 0x5c {
            out.push(0x5c);
            out.push(0x5c);
        } else if c < 0x20 {
            out.push(0x5c);
            out.push(0x75);
            out.push(0x30);
            out.push(0x30);
            out.push(hex_digit(c / 16));
            out.push(hex_digit(c % 16));
        } else {
            out.push(c);
        }
        assert(out@ =~= old(out)@ + spec_escape(s@.take(i + 1)));
        i += 1;
    }
    assert(s@.take(s@.len() as int) =~= s@);
}

/// The serialized form of a record with the given fields.
pub open spec fn spec_encode_md(path: Seq<u8>, off: int, csz: int, tot: int) -> Seq<u8> {
    lit_open() + spec_escape(path) + lit_off() + spec_dec(off) + lit_csz() + spec_dec(csz)
        + lit_tot() + spec_dec(tot) + seq![0x7du8]
}

/// Serializes a split-metadata record as its JSON object.
pub fn encode_split_metadata(m: &SplitMetadata) -> (r: Vec<u8>)
    ensures
        r@ == spec_encode_md(
            m.path@,
            m.start_offset as int,
            m.chunk_size as int,
            m.total_size as int,
        ),
{
    let mut out: Vec<u8> = Vec::new();
    push_all(&mut out, &[0x7b, 0x22, 0x70, 0x61, 0x74, 0x68, 0x22, 0x3a, 0x22]);
    assert(out@ =~= lit_open());
    escape_into(&mut out, m.path.as_slice());
    push_all(
        &mut out,
        &[0x22, 0x2c, 0x22, 0x73, 0x74, 0x61, 0x72, 0x74, 0x5f, 0x6f, 0x66, 0x66, 0x73, 0x65,
            0x74, 0x22, 0x3a],
    );
    assert(out@ =~= lit_open() + spec_escape(m.path@) + lit_off());
    push_dec(&mut out, m.start_offset as u64);
    push_all(
        &mut out,
        &[0x2c, 0x22, 0x63, 0x68, 0x75, 0x6e, 0x6b, 0x5f, 0x73, 0x69, 0x7a, 0x65, 0x22, 0x3a],
    );
    push_dec(&mut out, m.chunk_size as u64);
    push_all(
        &mut out,
        &[0x2c, 0x22, 0x74, 0x6f, 0x74, 0x61, 0x6c, 0x5f, 0x73, 0x69, 0x7a, 0x65, 0x22, 0x3a],
    );
    push_dec(&mut out, m.total_size);
    out.push(0x7d);
    assert(out@ =~= spec_encode_md(
        m.path@,
        m.start_offset as int,
        m.chunk_size as int,
        m.total_size as int,
    ));
    out
}

/// A plain (escape-free) string sits at `i`, its closing quote right after.
pub open spec fn spec_plain_str_at(b: Seq<u8>, i: int, s: Seq<u8>) -> bool {
    &&& spec_plain(s)
    &&& 0 <= i
    &&& i + s.len() + 1 <= b.len()
    &&& b.subrange(i, i + s.len() as int) == s
    &&& b[i + s.len() as int] == 0x22
}

proof fn lemma_escape_push(s: Seq<u8>, c: u8)
    ensures
        spec_escape(s.push(c)) == spec_escape(s) + spec_esc_byte(c),
{
    assert(s.push(c).drop_last() =~= s);
    assert(s.push(c).last() == c);
}

/// Parses the JSON string that starts at `start` (whose opening quote was
/// already consumed), up to and including the closing quote.
///
/// Whatever is accepted re-escapes to exactly the consumed bytes; a plain
/// string followed by a quote is always accepted.
pub fn parse_string_at(b: &[u8], start: usize) -> (r: Option<(Vec<u8>, usize)>)
    requires
        start <= b@.len(),
    ensures
        r is Some ==> start < (r->0).1 <= b@.len() && b@.subrange(start as int, (r->0).1 as int)
            == spec_escape((r->0).0@) + seq![0x22u8],
        forall|s: Seq<u8>| #[trigger] spec_plain_str_at(b@, start as int, s) ==> r is Some
            && (r->0).0@ == s && (r->0).1 == start + s.len() + 1,
{
    let mut acc: Vec<u8> = Vec::new();
    let mut i = start;
    proof {
        assert(b@.subrange(start as int, start as int) =~= Seq::<u8>::empty());
        assert(acc@.len() == 0);
    }
    while i < b.len()
        invariant
            start <= i <= b@.len(),
            spec_escape(acc@) == b@.subrange(start as int, i as int),
            forall|s: Seq<u8>| #[trigger] spec_plain_str_at(b@, start as int, s) ==> i - start
                <= s.len() && acc@ == s.take(i - start),
        decreases b@.len() - i,
    {
        let c = b[i];
        if c == 0x22 {
            proof {
                assert forall|s: Seq<u8>| #[trigger] spec_plain_str_at(b@, start as int, s)
                    implies acc@ == s && i + 1 == start + s.len() + 1 by {
                    if i - start < s.len() {
                        assert(s[i - start] == b@.subrange(start as int, start + s.len() as int)[i
                            - start]);
                        assert(spec_plain_byte(s[i - start]));
                    }
                    assert(acc@ =~= s);
                };
                assert(b@.subrange(start as int, i + 1) =~= spec_escape(acc@) + seq![0x22u8]);
            }
            return Some((acc, i + 1));
        } else if c == 0x5c {
            proof {
                assert forall|s: Seq<u8>| #[trigger] spec_plain_str_at(b@, start as int, s)
                    implies false by {
                    if i - start < s.len() {
                        assert(s[i - start] == b@.subrange(start as int, start + s.len() as int)[i
                            - start]);
                        assert(spec_plain_byte(s[i - start]));
                    }
                };
            }
            if b.len() - i <= 5 {
                return None;
            }
            let c2 = b[i + 1];
            if c2 == 0x22 || c2 == 0x5c {
                proof {
                    lemma_escape_push(acc@, c2);
                    assert(b@.subrange(start as int, i + 2) =~= b@.subrange(start as int, i as int)
                        + spec_esc_byte(c2));
                }
                acc.push(c2);
                i += 2;
            } else if c2 == 0x75 {
                if b[i + 2] != 0x30 || b[i + 3] != 0x30 {
                    return None;
                }
                let hv = match crate::hex::hex_val(b[i + 4]) {
                    Some(v) => v,
                    None => {
                        return None;
                    },
                };
                let lv = match crate::hex::hex_val(b[i + 5]) {
                    Some(v) => v,
                    None => {
                        return None;
                    },
                };
                let byte = hv * 16 + lv;
                if byte >= 0x20 {
                    return None;
                }
                proof {
                    lemma_escape_push(acc@, byte);
                    assert((hv * 16 + lv) / 16 == hv as int && (hv * 16 + lv) % 16 == lv as int)
                        by (nonlinear_arith)
                        requires hv < 16, lv < 16;
                    assert(spec_esc_byte(byte) =~= seq![0x5cu8, 0x75u8, 0x30u8, 0x30u8, b@[i + 4],
                        b@[i + 5]]);
                    assert(b@.subrange(start as int, i + 6) =~= b@.subrange(start as int, i as int)
                        + spec_esc_byte(byte));
                }
                acc.push(byte);
                i += 6;
            } else {
                return None;
            }
        } else if c < 0x20 {
            proof {
                assert forall|s: Seq<u8>| #[trigger] spec_plain_str_at(b@, start as int, s)
                    implies false by {
                    if i - start < s.len() {
                        assert(s[i - start] == b@.subrange(start as int, start + s.len() as int)[i
                            - start]);
                        assert(spec_plain_byte(s[i - start]));
                    }
                };
            }
            return None;
        } else {
            proof {
                lemma_escape_push(acc@, c);
                assert(spec_esc_byte(c) =~= seq![c]);
                assert(b@.subrange(start as int, i + 1) =~= b@.subrange(start as int, i as int)
                    + seq![c]);
                assert forall|s: Seq<u8>| #[trigger] spec_plain_str_at(b@, start as int, s)
                    implies i + 1 - start <= s.len() && acc@.push(c) == s.take(i + 1 - start) by {
                    assert(b@[start + s.len() as int] == 0x22);
                    if i - start == s.len() {
                        assert(b@[i as int] == 0x22);
                    }
                    assert(i - start < s.len());
                    assert(s[i - start] == b@.subrange(start as int, start + s.len() as int)[i
                        - start]);
                    assert(acc@.push(c) =~= s.take(i + 1 - start));
                };
            }
            acc.push(c);
            i += 1;
        }
    }
    proof {
        assert forall|s: Seq<u8>| #[trigger] spec_plain_str_at(b@, start as int, s)
            implies false by {
        };
    }
    None
}

/// Where each piece of a serialized record sits, for a plain path: the
/// opening literal, the path and its quote, the three numbers with their
/// separating literals, and the closing brace.
pub proof fn lemma_encode_structure(b: Seq<u8>, path: Seq<u8>, off: int, csz: int, tot: int)
    requires
        spec_plain(path),
        0 <= off,
        0 <= csz,
        0 <= tot,
        b == spec_encode_md(path, off, csz, tot),
    ensures
        b.len() == 55 + path.len() + spec_dec(off).len() + spec_dec(csz).len() + spec_dec(
            tot,
        ).len(),
        b.subrange(0, 9) == lit_open(),
        spec_plain_str_at(b, 9, path),
        b.subrange(
            9 + path.len() as int + 1,
            9 + path.len() as int + 17,
        ) == lit_off().drop_first(),
        spec_dec_at(b, 9 + path.len() as int + 17, off),
        b.subrange(
            26 + path.len() as int + spec_dec(off).len() as int,
            40 + path.len() as int + spec_dec(off).len() as int,
        ) == lit_csz(),
        spec_dec_at(b, 40 + path.len() as int + spec_dec(off).len() as int, csz),
        b.subrange(
            40 + path.len() as int + spec_dec(off).len() as int + spec_dec(csz).len() as int,
            54 + path.len() as int + spec_dec(off).len() as int + spec_dec(csz).len() as int,
        ) == lit_tot(),
        spec_dec_at(
            b,
            54 + path.len() as int + spec_dec(off).len() as int + spec_dec(csz).len() as int,
            tot,
        ),
        b[b.len() - 1] == 0x7d,
{
    lemma_escape_plain(path);
    crate::num::lemma_dec_digits(off);
    crate::num::lemma_dec_digits(csz);
    crate::num::lemma_dec_digits(tot);
    let l0 = path.len() as int;
    let l1 = spec_dec(off).len() as int;
    let l2 = spec_dec(csz).len() as int;
    let l3 = spec_dec(tot).len() as int;
    assert(b.subrange(0, 9) =~= lit_open());
    assert(b.subrange(9, 9 + l0) =~= path);
    assert(b[9 + l0] == 0x22);
    assert(b.subrange(9 + l0 + 1, 9 + l0 + 17) =~= lit_off().drop_first());
    assert(b.subrange(9 + l0 + 17, 9 + l0 + 17 + l1) =~= spec_dec(off));
    assert(b[26 + l0 + l1] == 0x2c);
    assert(b.subrange(26 + l0 + l1, 40 + l0 + l1) =~= lit_csz());
    assert(b.subrange(40 + l0 + l1, 40 + l0 + l1 + l2) =~= spec_dec(csz));
    assert(b[40 + l0 + l1 + l2] == 0x2c);
    assert(b.subrange(40 + l0 + l1 + l2, 54 + l0 + l1 + l2) =~= lit_tot());
    assert(b.subrange(54 + l0 + l1 + l2, 54 + l0 + l1 + l2 + l3) =~= spec_dec(tot));
    assert(b[54 + l0 + l1 + l2 + l3] == 0x7d);
    assert(!crate::num::spec_is_digit(0x2cu8));
    assert(!crate::num::spec_is_digit(0x7du8));
}


/// Pieces found at their places recompose to one serialized record.
#[verifier::rlimit(100)]
proof fn lemma_parse_sound(
    b: Seq<u8>,
    pathv: Seq<u8>,
    v1: int,
    v2: int,
    v3: int,
    j1: int,
    j3: int,
    j5: int,
    j7: int,
)
    requires
        0 <= v1,
        0 <= v2,
        0 <= v3,
        b.subrange(0, 9) == lit_open(),
        9 < j1 <= b.len(),
        b.subrange(9, j1) == spec_escape(pathv) + seq![0x22u8],
        crate::bytes::spec_match_at(b, lit_off().drop_first(), j1),
        spec_dec_at(b, j1 + 16, v1),
        j3 == j1 + 16 + spec_dec(v1).len(),
        crate::bytes::spec_match_at(b, lit_csz(), j3),
        spec_dec_at(b, j3 + 14, v2),
        j5 == j3 + 14 + spec_dec(v2).len(),
        crate::bytes::spec_match_at(b, lit_tot(), j5),
        spec_dec_at(b, j5 + 14, v3),
        j7 == j5 + 14 + spec_dec(v3).len(),
        b.len() == j7 + 1,
        b[j7] == 0x7d,
    ensures
        b == spec_encode_md(pathv, v1, v2, v3),
{
    let esc = spec_escape(pathv);
    assert(b.subrange(9, j1).len() == j1 - 9);
    assert((esc + seq![0x22u8]).len() == esc.len() + 1);
    assert(esc.len() == j1 - 1 - 9);
    assert(spec_encode_md(pathv, v1, v2, v3).len() == 9 + esc.len() + 17 + spec_dec(v1).len()
        + 14 + spec_dec(v2).len() + 14 + spec_dec(v3).len() + 1);
    assert(b.len() == spec_encode_md(pathv, v1, v2, v3).len());
    assert(b[j1 - 1] == (esc + seq![0x22u8])[j1 - 1 - 9]);
    assert forall|i: int| 0 <= i < 9 implies #[trigger] b[i] == lit_open()[i] by {
        assert(b.subrange(0, 9)[i] == lit_open()[i]);
    };
    assert forall|i: int| 9 <= i < j1 - 1 implies #[trigger] b[i] == esc[i - 9] by {
        assert(b.subrange(9, j1)[i - 9] == (esc + seq![0x22u8])[i - 9]);
    };
    assert(lit_off().drop_first().len() == 16);
    assert forall|i: int| j1 <= i < j1 + 16 implies #[trigger] b[i] == lit_off()[i - j1 + 1] by {
        assert(b.subrange(j1, j1 + 16)[i - j1] == lit_off().drop_first()[i - j1]);
        assert(lit_off().drop_first()[i - j1] == lit_off()[i - j1 + 1]);
    };
    let d1 = spec_dec(v1);
    assert forall|i: int| j1 + 16 <= i < j3 implies #[trigger] b[i] == d1[i - j1 - 16] by {
        assert(b.subrange(j1 + 16, j1 + 16 + d1.len())[i - j1 - 16] == d1[i - j1 - 16]);
    };
    assert forall|i: int| j3 <= i < j3 + 14 implies #[trigger] b[i] == lit_csz()[i - j3] by {
        assert(b.subrange(j3, j3 + 14)[i - j3] == lit_csz()[i - j3]);
    };
    let d2 = spec_dec(v2);
    assert forall|i: int| j3 + 14 <= i < j5 implies #[trigger] b[i] == d2[i - j3 - 14] by {
        assert(b.subrange(j3 + 14, j3 + 14 + d2.len())[i - j3 - 14] == d2[i - j3 - 14]);
    };
    assert forall|i: int| j5 <= i < j5 + 14 implies #[trigger] b[i] == lit_tot()[i - j5] by {
        assert(b.subrange(j5, j5 + 14)[i - j5] == lit_tot()[i - j5]);
    };
    let d3 = spec_dec(v3);
    assert forall|i: int| j5 + 14 <= i < j7 implies #[trigger] b[i] == d3[i - j5 - 14] by {
        assert(b.subrange(j5 + 14, j5 + 14 + d3.len())[i - j5 - 14] == d3[i - j5 - 14]);
    };
    assert(b =~= spec_encode_md(pathv, v1, v2, v3));
}


/// Parses the head of a serialized record: the opening literal, the path
/// string, the `start_offset` literal and its value.
#[verifier::rlimit(100)]
fn parse_md_head(b: &[u8]) -> (r: Option<(Vec<u8>, u64, usize, usize)>)
    ensures
        r is Some ==> ({
            let (path, v1, j1, j3) = r->0;
            &&& 9 < j1 as int <= b@.len()
            &&& b@.subrange(0, 9) == lit_open()
            &&& b@.subrange(9, j1 as int) == spec_escape(path@) + seq![0x22u8]
            &&& crate::bytes::spec_match_at(b@, lit_off().drop_first(), j1 as int)
            &&& spec_dec_at(b@, j1 + 16, v1 as int)
            &&& j3 == j1 + 16 + spec_dec(v1 as int).len()
            &&& v1 <= u32::MAX
            &&& j3 <= b@.len()
        }),
        forall|path: Seq<u8>, off: int, csz: int, tot: int|
            spec_plain(path) && 0 <= off <= u32::MAX && 0 <= csz <= u32::MAX && 0 <= tot
                <= u64::MAX && b@ == #[trigger] spec_encode_md(path, off, csz, tot) ==> r is Some
                && (r->0).0@ == path && (r->0).1 == off && (r->0).2 == 10 + path.len()
                && (r->0).3 == 26 + path.len() + spec_dec(off).len(),
{
    // Pins the slice length into usize range for the position arithmetic.
    let blen = b.len();
    let lit9: &[u8] = &[0x7b, 0x22, 0x70, 0x61, 0x74, 0x68, 0x22, 0x3a, 0x22];
    let lit16: &[u8] = &[0x2c, 0x22, 0x73, 0x74, 0x61, 0x72, 0x74, 0x5f, 0x6f, 0x66, 0x66, 0x73,
        0x65, 0x74, 0x22, 0x3a];
    proof {
        assert(lit9@ =~= lit_open());
        assert(lit16@ =~= lit_off().drop_first());
    }
    if !crate::bytes::match_at(b, 0, lit9) {
        proof {
            assert forall|path: Seq<u8>, off: int, csz: int, tot: int|
                spec_plain(path) && 0 <= off <= u32::MAX && 0 <= csz <= u32::MAX && 0 <= tot
                    <= u64::MAX && b@ == #[trigger] spec_encode_md(path, off, csz, tot)
                implies false by {
                lemma_encode_structure(b@, path, off, csz, tot);
            };
        }
        return None;
    }
    let (path, j1) = match parse_string_at(b, 9) {
        Some(x) => x,
        None => {
            proof {
                assert forall|path: Seq<u8>, off: int, csz: int, tot: int|
                    spec_plain(path) && 0 <= off <= u32::MAX && 0 <= csz <= u32::MAX && 0 <= tot
                        <= u64::MAX && b@ == #[trigger] spec_encode_md(path, off, csz, tot)
                    implies false by {
                    lemma_encode_structure(b@, path, off, csz, tot);
                };
            }
            return None;
        },
    };
    if !crate::bytes::match_at(b, j1, lit16) {
        proof {
            assert forall|path2: Seq<u8>, off: int, csz: int, tot: int|
                spec_plain(path2) && 0 <= off <= u32::MAX && 0 <= csz <= u32::MAX && 0 <= tot
                    <= u64::MAX && b@ == #[trigger] spec_encode_md(path2, off, csz, tot)
                implies false by {
                lemma_encode_structure(b@, path2, off, csz, tot);
            };
        }
        return None;
    }
    proof {
        assert(j1 + lit16@.len() <= b@.len());
    }
    let j2 = j1 + 16;
    let (v1, j3) = match crate::num::parse_dec_at(b, j2) {
        Some(x) => x,
        None => {
            proof {
                assert forall|path2: Seq<u8>, off: int, csz: int, tot: int|
                    spec_plain(path2) && 0 <= off <= u32::MAX && 0 <= csz <= u32::MAX && 0 <= tot
                        <= u64::MAX && b@ == #[trigger] spec_encode_md(path2, off, csz, tot)
                    implies false by {
                    lemma_encode_structure(b@, path2, off, csz, tot);
                    assert(spec_dec_at(b@, j2 as int, off));
                };
            }
            return None;
        },
    };
    if v1 > 0xffff_ffff {
        proof {
            assert forall|path2: Seq<u8>, off: int, csz: int, tot: int|
                spec_plain(path2) && 0 <= off <= u32::MAX && 0 <= csz <= u32::MAX && 0 <= tot
                    <= u64::MAX && b@ == #[trigger] spec_encode_md(path2, off, csz, tot)
                implies false by {
                lemma_encode_structure(b@, path2, off, csz, tot);
                assert(spec_dec_at(b@, j2 as int, off));
            };
        }
        return None;
    }
    proof {
        assert forall|path2: Seq<u8>, off: int, csz: int, tot: int|
            spec_plain(path2) && 0 <= off <= u32::MAX && 0 <= csz <= u32::MAX && 0 <= tot
                <= u64::MAX && b@ == #[trigger] spec_encode_md(path2, off, csz, tot)
            implies path@ == path2 && v1 == off && j1 == 10 + path2.len() && j3 == 26
                + path2.len() + spec_dec(off).len() by {
            lemma_encode_structure(b@, path2, off, csz, tot);
            assert(spec_dec_at(b@, j2 as int, off));
        };
    }
    Some((path, v1, j1, j3))
}

/// Parses a serialized split-metadata record.
///
/// Whatever is accepted re-serializes to exactly the input, and the
/// serialization of any record with a plain path and in-range fields is
/// accepted and gives those fields back.
#[verifier::rlimit(100)]
pub fn parse_split_metadata(b: &[u8]) -> (r: Option<SplitMetadata>)
    ensures
        r is Some ==> b@ == spec_encode_md(
            r->0.path@,
            r->0.start_offset as int,
            r->0.chunk_size as int,
            r->0.total_size as int,
        ),
        forall|path: Seq<u8>, off: int, csz: int, tot: int|
            spec_plain(path) && 0 <= off <= u32::MAX && 0 <= csz <= u32::MAX && 0 <= tot
                <= u64::MAX && b@ == #[trigger] spec_encode_md(path, off, csz, tot) ==> r is Some
                && r->0.path@ == path && r->0.start_offset == off && r->0.chunk_size == csz
                && r->0.total_size == tot,
{
    // Pins the slice length into usize range for the position arithmetic.
    let blen = b.len();
    let lit_c: &[u8] = &[0x2c, 0x22, 0x63, 0x68, 0x75, 0x6e, 0x6b, 0x5f, 0x73, 0x69, 0x7a, 0x65,
        0x22, 0x3a];
    let lit_t: &[u8] = &[0x2c, 0x22, 0x74, 0x6f, 0x74, 0x61, 0x6c, 0x5f, 0x73, 0x69, 0x7a, 0x65,
        0x22, 0x3a];
    proof {
        assert(lit_c@ =~= lit_csz());
        assert(lit_t@ =~= lit_tot());
    }
    let (path, v1, j1, j3) = match parse_md_head(b) {
        Some(x) => x,
        None => {
            return None;
        },
    };
    if !crate::bytes::match_at(b, j3, lit_c) {
        proof {
            assert forall|path2: Seq<u8>, off: int, csz: int, tot: int|
                spec_plain(path2) && 0 <= off <= u32::MAX && 0 <= csz <= u32::MAX && 0 <= tot
                    <= u64::MAX && b@ == #[trigger] spec_encode_md(path2, off, csz, tot)
                implies false by {
                lemma_encode_structure(b@, path2, off, csz, tot);
            };
        }
        return None;
    }
    proof {
        assert(j3 + lit_c@.len() <= b@.len());
    }
    let (v2, j5) = match crate::num::parse_dec_at(b, j3 + 14) {
        Some(x) => x,
        None => {
            proof {
                assert forall|path2: Seq<u8>, off: int, csz: int, tot: int|
                    spec_plain(path2) && 0 <= off <= u32::MAX && 0 <= csz <= u32::MAX && 0 <= tot
                        <= u64::MAX && b@ == #[trigger] spec_encode_md(path2, off, csz, tot)
                    implies false by {
                    lemma_encode_structure(b@, path2, off, csz, tot);
                    assert(spec_dec_at(b@, j3 + 14, csz));
                };
            }
            return None;
        },
    };
    if v2 > 0xffff_ffff || !crate::bytes::match_at(b, j5, lit_t) {
        proof {
            assert forall|path2: Seq<u8>, off: int, csz: int, tot: int|
                spec_plain(path2) && 0 <= off <= u32::MAX && 0 <= csz <= u32::MAX && 0 <= tot
                    <= u64::MAX && b@ == #[trigger] spec_encode_md(path2, off, csz, tot)
                implies false by {
                lemma_encode_structure(b@, path2, off, csz, tot);
                assert(spec_dec_at(b@, j3 + 14, csz));
            };
        }
        return None;
    }
    proof {
        assert(j5 + lit_t@.len() <= b@.len());
    }
    let (v3, j7) = match crate::num::parse_dec_at(b, j5 + 14) {
        Some(x) => x,
        None => {
            proof {
                assert forall|path2: Seq<u8>, off: int, csz: int, tot: int|
                    spec_plain(path2) && 0 <= off <= u32::MAX && 0 <= csz <= u32::MAX && 0 <= tot
                        <= u64::MAX && b@ == #[trigger] spec_encode_md(path2, off, csz, tot)
                    implies false by {
                    lemma_encode_structure(b@, path2, off, csz, tot);
                    assert(spec_dec_at(b@, j3 + 14, csz));
                    assert(spec_dec_at(b@, j5 + 14, tot));
                };
            }
            return None;
        },
    };
    if j7 >= b.len() || b[j7] != 0x7d || j7 + 1 != b.len() {
        proof {
            assert forall|path2: Seq<u8>, off: int, csz: int, tot: int|
                spec_plain(path2) && 0 <= off <= u32::MAX && 0 <= csz <= u32::MAX && 0 <= tot
                    <= u64::MAX && b@ == #[trigger] spec_encode_md(path2, off, csz, tot)
                implies false by {
                lemma_encode_structure(b@, path2, off, csz, tot);
                assert(spec_dec_at(b@, j3 + 14, csz));
                assert(spec_dec_at(b@, j5 + 14, tot));
            };
        }
        return None;
    }
    let m = SplitMetadata {
        path,
        start_offset: v1 as u32,
        chunk_size: v2 as u32,
        total_size: v3,
    };
    proof {
        lemma_parse_sound(
            b@,
            m.path@,
            v1 as int,
            v2 as int,
            v3 as int,
            j1 as int,
            j3 as int,
            j5 as int,
            j7 as int,
        );
        assert forall|path2: Seq<u8>, off: int, csz: int, tot: int|
            spec_plain(path2) && 0 <= off <= u32::MAX && 0 <= csz <= u32::MAX && 0 <= tot
                <= u64::MAX && b@ == #[trigger] spec_encode_md(path2, off, csz, tot)
            implies m.path@ == path2 && m.start_offset == off && m.chunk_size == csz
                && m.total_size == tot by {
            lemma_encode_structure(b@, path2, off, csz, tot);
            assert(spec_dec_at(b@, j3 + 14, csz));
            assert(spec_dec_at(b@, j5 + 14, tot));
        };
    }
    Some(m)
}

} // verus!
