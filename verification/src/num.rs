//! Decimal rendering and parsing of unsigned integers, as bytes.
//!
//! Archive ordinals, segment indices and the numeric fields of the
//! split-metadata record are all written in canonical decimal (no sign, no
//! leading zeros except for the single digit `0`); the archive ordinal is
//! additionally zero-padded to at least three digits.

use vstd::prelude::*;

verus! {

/// The ASCII digit for `d` (meaningful for `0 <= d <= 9`).
pub open spec fn spec_digit(d: int) -> u8 {
    (0x30 + d) as u8
}

/// Canonical decimal rendering of `n >= 0`, most significant digit first.
pub open spec fn spec_dec(n: int) -> Seq<u8>
    decreases n,
{
    if n < 10 {
        seq![spec_digit(n)]
    } else {
        spec_dec(n / 10).push(spec_digit(n % 10))
    }
}

/// `n` rendered in decimal, zero-padded on the left to at least 3 digits.
pub open spec fn spec_dec_pad3(n: int) -> Seq<u8> {
    if n < 10 {
        seq![0x30u8, 0x30u8] + spec_dec(n)
    } else if n < 100 {
        seq![0x30u8] + spec_dec(n)
    } else {
        spec_dec(n)
    }
}

/// Appends the canonical decimal rendering of `n` to `out`.
pub fn push_dec(out: &mut Vec<u8>, n: u64)
    ensures
        final(out)@ == old(out)@ + spec_dec(n as int),
    decreases n,
{
    if n < 10 {
        out.push(0x30u8 + n as u8);
        assert(out@ =~= old(out)@ + spec_dec(n as int));
    } else {
        push_dec(out, n / 10);
        out.push(0x30u8 + (n % 10) as u8);
        assert(out@ =~= old(out)@ + spec_dec(n as int));
    }
}

/// Appends `n` in decimal, zero-padded to at least 3 digits.
pub fn push_dec_pad3(out: &mut Vec<u8>, n: u64)
    ensures
        final(out)@ == old(out)@ + spec_dec_pad3(n as int),
{
    if n < 10 {
        out.push(0x30u8);
        out.push(0x30u8);
    } else if n < 100 {
        out.push(0x30u8);
    }
    push_dec(out, n);
    assert(out@ =~= old(out)@ + spec_dec_pad3(n as int));
}

/// `c` is an ASCII decimal digit.
pub open spec fn spec_is_digit(c: u8) -> bool {
    0x30 <= c <= 0x39
}

/// Every byte of `s` is an ASCII decimal digit, and there is at least one.
pub open spec fn spec_all_digits(s: Seq<u8>) -> bool {
    s.len() > 0 && forall|i: int| 0 <= i < s.len() ==> spec_is_digit(#[trigger] s[i])
}

/// The value of a digit string, most significant digit first.
pub open spec fn spec_dec_val(s: Seq<u8>) -> int
    decreases s.len(),
{
    if s.len() == 0 {
        0
    } else {
        spec_dec_val(s.drop_last()) * 10 + (s.last() - 0x30)
    }
}

proof fn lemma_dec_val_nonneg(s: Seq<u8>)
    requires
        forall|i: int| 0 <= i < s.len() ==> spec_is_digit(#[trigger] s[i]),
    ensures
        spec_dec_val(s) >= 0,
    decreases s.len(),
{
    if s.len() > 0 {
        assert(forall|i: int|
            0 <= i < s.drop_last().len() ==> spec_is_digit(#[trigger] s.drop_last()[i]));
        lemma_dec_val_nonneg(s.drop_last());
        assert(spec_dec_val(s.drop_last()) * 10 >= 0) by (nonlinear_arith)
            requires spec_dec_val(s.drop_last()) >= 0;
    }
}

proof fn lemma_dec_val_step(s: Seq<u8>, i: int)
    requires
        0 <= i < s.len(),
    ensures
        spec_dec_val(s.take(i + 1)) == spec_dec_val(s.take(i)) * 10 + (s[i] - 0x30),
{
    assert(s.take(i + 1).drop_last() =~= s.take(i));
    assert(s.take(i + 1).last() == s[i]);
}

/// Once a digit prefix already exceeds `m`, the whole string does too.
proof fn lemma_dec_val_extend_exceeds(s: Seq<u8>, i: int, m: int)
    requires
        0 <= i <= s.len(),
        forall|j: int| 0 <= j < s.len() ==> spec_is_digit(#[trigger] s[j]),
        spec_dec_val(s.take(i)) > m,
        m >= 0,
    ensures
        spec_dec_val(s) > m,
    decreases s.len() - i,
{
    if i == s.len() {
        assert(s.take(i) =~= s);
    } else {
        lemma_dec_val_step(s, i);
        assert(forall|j: int| 0 <= j < s.take(i).len() ==> spec_is_digit(#[trigger] s.take(i)[j]));
        lemma_dec_val_nonneg(s.take(i));
        assert(spec_dec_val(s.take(i)) * 10 >= spec_dec_val(s.take(i))) by (nonlinear_arith)
            requires spec_dec_val(s.take(i)) >= 0;
        lemma_dec_val_extend_exceeds(s, i + 1, m);
    }
}

/// Parses a digits-only decimal `u64`.
///
/// Returns the value exactly when the input is a nonempty run of ASCII
/// digits whose value fits in a `u64`; returns `None` otherwise.
pub fn parse_u64_dec(b: &[u8]) -> (r: Option<u64>)
    ensures
        r is Some <==> spec_all_digits(b@) && spec_dec_val(b@) <= u64::MAX,
        r is Some ==> r->0 as int == spec_dec_val(b@),
{
    if b.len() == 0 {
        return None;
    }
    let mut acc: u64 = 0;
    let mut i: usize = 0;
    while i < b.len()
        invariant
            0 < b.len(),
            i <= b.len(),
            forall|j: int| 0 <= j < i ==> spec_is_digit(#[trigger] b@[j]),
            acc as int == spec_dec_val(b@.take(i as int)),
        decreases b.len() - i,
    {
        let c = b[i];
        if c < 0x30 || c > 0x39 {
            return None;
        }
        let d: u64 = (c - 0x30) as u64;
        proof {
            lemma_dec_val_step(b@, i as int);
        }
        if acc > (u64::MAX - d) / 10 {
            proof {
                assert(acc * 10 + d > u64::MAX) by (nonlinear_arith)
                    requires
                        acc > (u64::MAX - d) / 10,
                        0 <= d <= 9,
                        acc >= 0;
                if spec_all_digits(b@) {
                    lemma_dec_val_extend_exceeds(b@, i + 1, u64::MAX as int);
                }
            }
            return None;
        }
        proof {
            assert(acc * 10 + d <= u64::MAX) by (nonlinear_arith)
                requires
                    acc <= (u64::MAX - d) / 10,
                    0 <= d <= 9,
                    acc >= 0;
        }
        acc = acc * 10 + d;
        i += 1;
    }
    proof {
        assert(b@.take(b@.len() as int) =~= b@);
    }
    Some(acc)
}

/// A canonical decimal: digits only, no leading zero unless the single `0`.
pub open spec fn spec_canon_dec(s: Seq<u8>) -> bool {
    spec_all_digits(s) && (s.len() == 1 || s[0] != 0x30)
}

/// The rendering of `n >= 0` is made of digits.
pub proof fn lemma_dec_digits(n: int)
    requires
        n >= 0,
    ensures
        spec_all_digits(spec_dec(n)),
        spec_canon_dec(spec_dec(n)),
        n >= 1 ==> spec_dec(n)[0] != 0x30,
        n < 10 ==> spec_dec(n).len() == 1,
    decreases n,
{
    if n < 10 {
    } else {
        lemma_dec_digits(n / 10);
        assert(spec_dec(n)[0] == spec_dec(n / 10)[0]);
        assert(spec_all_digits(spec_dec(n)));
    }
}

/// Reading back the rendering of `n` gives `n`.
pub proof fn lemma_dec_val_of_dec(n: int)
    requires
        n >= 0,
    ensures
        spec_dec_val(spec_dec(n)) == n,
    decreases n,
{
    if n < 10 {
        assert(spec_dec(n).drop_last() =~= Seq::<u8>::empty());
        assert(spec_dec_val(Seq::<u8>::empty()) == 0);
        assert(spec_dec(n).last() == spec_digit(n));
        assert(spec_digit(n) == 0x30 + n);
    } else {
        lemma_dec_val_of_dec(n / 10);
        lemma_dec_digits(n / 10);
        assert(spec_dec(n).drop_last() =~= spec_dec(n / 10));
        assert(n / 10 * 10 + n % 10 == n) by (nonlinear_arith)
            requires n >= 10;
    }
}

/// A canonical decimal with more than one digit is at least 10; one that
/// does not start with `0` is at least 1.
pub proof fn lemma_canon_val_lower(s: Seq<u8>)
    requires
        spec_canon_dec(s),
    ensures
        spec_dec_val(s) >= 0,
        s[0] != 0x30 ==> spec_dec_val(s) >= 1,
        s.len() > 1 ==> spec_dec_val(s) >= 10,
    decreases s.len(),
{
    lemma_dec_val_nonneg(s);
    if s.len() == 1 {
    } else {
        let bl = s.drop_last();
        assert(forall|i: int| 0 <= i < bl.len() ==> spec_is_digit(#[trigger] bl[i]));
        assert(spec_canon_dec(bl));
        lemma_canon_val_lower(bl);
        assert(bl[0] == s[0]);
        assert(spec_dec_val(bl) * 10 >= 10) by (nonlinear_arith)
            requires spec_dec_val(bl) >= 1;
    }
}

/// Rendering the value of a canonical decimal gives it back.
pub proof fn lemma_dec_canon(s: Seq<u8>)
    requires
        spec_canon_dec(s),
    ensures
        spec_dec(spec_dec_val(s)) == s,
    decreases s.len(),
{
    lemma_dec_val_nonneg(s);
    if s.len() == 1 {
        assert(spec_dec_val(s.drop_last()) == 0);
        assert(spec_dec(spec_dec_val(s)) =~= s);
    } else {
        let bl = s.drop_last();
        assert(forall|i: int| 0 <= i < bl.len() ==> spec_is_digit(#[trigger] bl[i]));
        assert(spec_canon_dec(bl));
        lemma_dec_canon(bl);
        lemma_canon_val_lower(s);
        let a = spec_dec_val(bl);
        let d = s.last() - 0x30;
        assert(spec_dec_val(s) == a * 10 + d);
        assert((a * 10 + d) / 10 == a && (a * 10 + d) % 10 == d) by (nonlinear_arith)
            requires a >= 0, 0 <= d <= 9;
        assert(spec_dec_val(s) >= 10) by {
            assert(a >= 1);
            assert(a * 10 >= 10) by (nonlinear_arith)
                requires a >= 1;
        }
        assert(spec_dec(spec_dec_val(s)) =~= s);
    }
}

/// A canonical decimal of value `v` sits at `i`, a non-digit or the end
/// right after it.
pub open spec fn spec_dec_at(b: Seq<u8>, i: int, v: int) -> bool {
    &&& 0 <= v
    &&& 0 <= i
    &&& i + spec_dec(v).len() <= b.len()
    &&& b.subrange(i, i + spec_dec(v).len() as int) == spec_dec(v)
    &&& (i + spec_dec(v).len() == b.len() || !spec_is_digit(b[i + spec_dec(v).len()]))
}

/// Parses the canonical decimal `u64` that starts at `start`, returning
/// its value and the position right after it. Exactly the canonical
/// renderings of values that fit a `u64` are accepted.
pub fn parse_dec_at(b: &[u8], start: usize) -> (r: Option<(u64, usize)>)
    requires
        start <= b@.len(),
    ensures
        r is Some ==> start < (r->0).1 <= b@.len() && spec_dec_at(b@, start as int, (r->0).0 as int)
            && (r->0).1 == start + spec_dec((r->0).0 as int).len(),
        forall|v: int|
            0 <= v <= u64::MAX && #[trigger] spec_dec_at(b@, start as int, v) ==> r is Some
                && (r->0).0 == v && (r->0).1 == start + spec_dec(v).len(),
{
    let mut j = start;
    let mut acc: u64 = 0;
    let mut over = false;
    while j < b.len() && 0x30 <= b[j] && b[j] <= 0x39
        invariant
            start <= j <= b@.len(),
            forall|k: int| start <= k < j ==> spec_is_digit(#[trigger] b@[k]),
            !over ==> acc as int == spec_dec_val(b@.subrange(start as int, j as int)),
            over ==> spec_dec_val(b@.subrange(start as int, j as int)) > u64::MAX,
        decreases b@.len() - j,
    {
        let d: u64 = (b[j] - 0x30) as u64;
        proof {
            let run = b@.subrange(start as int, j + 1);
            assert(run.drop_last() =~= b@.subrange(start as int, j as int));
            assert(run.last() == b@[j as int]);
            if !over && acc > (u64::MAX - d) / 10 {
                assert(acc * 10 + d > u64::MAX) by (nonlinear_arith)
                    requires acc > (u64::MAX - d) / 10, 0 <= d <= 9, acc >= 0;
            }
            if over {
                lemma_dec_val_nonneg(b@.subrange(start as int, j as int));
                assert(spec_dec_val(b@.subrange(start as int, j as int)) * 10 + d > u64::MAX) by (nonlinear_arith)
                    requires
                        spec_dec_val(b@.subrange(start as int, j as int)) > u64::MAX,
                        d >= 0;
            }
            if !over && acc <= (u64::MAX - d) / 10 {
                assert(acc * 10 + d <= u64::MAX) by (nonlinear_arith)
                    requires acc <= (u64::MAX - d) / 10, 0 <= d <= 9, acc >= 0;
            }
        }
        if over || acc > (u64::MAX - d) / 10 {
            over = true;
        } else {
            acc = acc * 10 + d;
        }
        j += 1;
    }
    let ghost run = b@.subrange(start as int, j as int);
    proof {
        assert forall|v: int| 0 <= v <= u64::MAX && #[trigger] spec_dec_at(b@, start as int, v)
            implies j == start + spec_dec(v).len() && run == spec_dec(v) by {
            lemma_dec_digits(v);
            let ll = spec_dec(v).len() as int;
            assert forall|k: int|
                start <= k < start + ll implies spec_is_digit(#[trigger] b@[k]) && b@[k]
                == spec_dec(v)[k - start] by {
                assert(b@.subrange(start as int, start + ll)[k - start] == b@[k]);
            };
            if j < start + ll {
                assert(spec_is_digit(b@[j as int]));
            }
            if j > start + ll {
                assert(spec_is_digit(b@[start + ll]));
            }
            assert(run =~= spec_dec(v));
        }
    }
    if j == start {
        proof {
            assert forall|v: int|
                0 <= v <= u64::MAX && #[trigger] spec_dec_at(b@, start as int, v) implies false by {
                lemma_dec_digits(v);
            }
        }
        return None;
    }
    if b[start] == 0x30 && j > start + 1 {
        proof {
            assert forall|v: int|
                0 <= v <= u64::MAX && #[trigger] spec_dec_at(b@, start as int, v) implies false by {
                lemma_dec_digits(v);
                assert(spec_dec(v)[0] == b@[start as int]);
                assert(spec_dec(v).len() == j - start);
                if v >= 1 {
                } else {
                    assert(spec_dec(v).len() == 1);
                }
            }
        }
        return None;
    }
    if over {
        proof {
            assert forall|v: int|
                0 <= v <= u64::MAX && #[trigger] spec_dec_at(b@, start as int, v) implies false by {
                lemma_dec_digits(v);
                lemma_dec_val_of_dec(v);
            }
        }
        return None;
    }
    proof {
        assert(spec_canon_dec(run));
        lemma_dec_canon(run);
        assert(b@.subrange(start as int, start + spec_dec(acc as int).len()) == spec_dec(
            acc as int,
        ));
        assert forall|v: int| 0 <= v <= u64::MAX && #[trigger] spec_dec_at(b@, start as int, v)
            implies acc as int == v by {
            lemma_dec_val_of_dec(v);
        }
    }
    Some((acc, j))
}

} // verus!
