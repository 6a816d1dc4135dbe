//! The hashing pass-through sink, less its forwarding half: the digest
//! state that sees every byte written to an archive, and the lowercase hex
//! rendering written to the sidecar when the sink is released.
//!
//! The SHA-256 computation itself is `ring`'s; the stream remembers in its
//! view which bytes were fed, and the sidecar content is pinned to
//! `spec_hex_lower(sha256_of(fed bytes))`.

use vstd::prelude::*;
use crate::hex::{hex_lower, spec_hex_lower};

verus! {

#[verifier::external_type_specification]
#[verifier::external_body]
pub struct ExDigestContext(ring::digest::Context);

/// The bytes a digest context was fed since it was created.
pub uninterp spec fn ctx_fed(c: ring::digest::Context) -> Seq<u8>;

/// The SHA-256 digest of a byte string: 32 bytes, a function of the input
/// alone.
pub uninterp spec fn sha256_of(bytes: Seq<u8>) -> Seq<u8>;

/// Relies on `ring::digest::Context::new` with `ring::digest::SHA256`:
/// a fresh context has been fed nothing.
#[verifier::external_body]
fn sha256_context_new() -> (c: ring::digest::Context)
    ensures
        ctx_fed(c) == Seq::<u8>::empty(),
{
    ring::digest::Context::new(&ring::digest::SHA256)
}

/// Relies on `ring::digest::Context::update`: it appends `data` to what
/// the context was fed.
#[verifier::external_body]
fn sha256_context_update(c: &mut ring::digest::Context, data: &[u8])
    ensures
        ctx_fed(*final(c)) == ctx_fed(*old(c)) + data@,
{
    c.update(data)
}

/// Relies on `ring::digest::Context::finish` (on a clone, so the context
/// stays usable) and `ring::digest::Digest::as_ref`: the SHA-256 of the
/// fed bytes, which for `SHA256` is 32 bytes long.
#[verifier::external_body]
fn sha256_context_digest(c: &ring::digest::Context) -> (r: Vec<u8>)
    ensures
        r@ == sha256_of(ctx_fed(*c)),
        r@.len() == 32,
{
    c.clone().finish().as_ref().to_vec()
}

/// The digest state of one hashing pass-through sink. Its view is the
/// byte stream fed so far.
pub struct Sha256Stream {
    ctx: ring::digest::Context,
}

impl View for Sha256Stream {
    type V = Seq<u8>;

    closed spec fn view(&self) -> Seq<u8> {
        ctx_fed(self.ctx)
    }
}

impl Sha256Stream {
    /// A stream that has seen nothing.
    pub fn new() -> (s: Self)
        ensures
            s@ == Seq::<u8>::empty(),
    {
        Sha256Stream { ctx: sha256_context_new() }
    }

    /// Records `data` as written through the sink.
    pub fn update(&mut self, data: &[u8])
        ensures
            final(self)@ == old(self)@ + data@,
    {
        sha256_context_update(&mut self.ctx, data);
    }

    /// The sidecar content for the stream seen so far: the lowercase hex
    /// of its SHA-256, 64 bytes.
    pub fn hex_digest(&self) -> (r: Vec<u8>)
        ensures
            r@ == spec_hex_lower(sha256_of(self@)),
            r@.len() == 64,
    {
        let d = sha256_context_digest(&self.ctx);
        let h = hex_lower(d.as_slice());
        proof {
            crate::hex::lemma_hex_lower_len(sha256_of(self@));
        }
        h
    }
}

} // verus!
