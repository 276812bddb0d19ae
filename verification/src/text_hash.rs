//! The hash of a text, as the stream store keys its segments.
//!
//! A text is written into a fresh `DefaultHasher` by the `Hash` impl of
//! `str`. What that impl writes depends on the characters of the text alone,
//! so the hash does too.
use std::collections::hash_map::DefaultHasher;
use std::hash::Hash;
use std::hash::Hasher;
use vstd::prelude::*;
use vstd::std_specs::hash::DefaultHasherAdditionalSpecFns;

verus! {

/// What the `Hash` impl of `str` writes into a hasher for a text.
pub uninterp spec fn text_writes(text: Seq<char>) -> Seq<Seq<u8>>;

/// The hash of a text: what a fresh `DefaultHasher` makes of what `str`
/// writes into it.
pub open spec fn text_hash(text: Seq<char>) -> u64 {
    DefaultHasher::spec_finish(text_writes(text))
}

/// `Hash::hash` of `str`: writes `t` into `state`. What was written before
/// stays, and what is added depends on the characters of `t` alone.
#[verifier::external_body]
fn write_text(t: &str, state: &mut DefaultHasher)
    ensures
        final(state)@ == old(state)@ + text_writes(t@),
{
    t.hash(state);
}

/// The hash of a text.
pub fn hash_text(t: &str) -> (hash: u64)
    ensures
        hash == text_hash(t@),
{
    let mut s = DefaultHasher::new();
    write_text(t, &mut s);
    proof {
        assert(Seq::<Seq<u8>>::empty() + text_writes(t@) =~= text_writes(t@));
    }
    s.finish()
}

} // verus!
