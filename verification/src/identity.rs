use crate::numerals::{lower_hex, to_lower_hex};
use crate::outside::{absorb, absorbed};
use std::collections::hash_map::DefaultHasher;
use std::hash::Hasher;
use vstd::prelude::*;
use vstd::std_specs::hash::DefaultHasherAdditionalSpecFns;

verus! {

/// The identifier derived from two pieces of text, taken in order.
pub open spec fn fingerprint_of_pair(first: Seq<char>, second: Seq<char>) -> Seq<char> {
    lower_hex(
        DefaultHasher::spec_finish(absorbed(absorbed(Seq::empty(), first), second)) as nat,
    )
}

/// The identifier derived from four pieces of text, taken in order.
pub open spec fn fingerprint_of_four(
    first: Seq<char>,
    second: Seq<char>,
    third: Seq<char>,
    fourth: Seq<char>,
) -> Seq<char> {
    lower_hex(
        DefaultHasher::spec_finish(
            absorbed(absorbed(absorbed(absorbed(Seq::empty(), first), second), third), fourth),
        ) as nat,
    )
}

/// Derives an identifier from two pieces of text. Equal inputs give equal
/// identifiers.
pub fn fingerprint_pair(first: &str, second: &str) -> (id: String)
    ensures
        id@ == fingerprint_of_pair(first@, second@),
{
    let mut state = DefaultHasher::new();
    absorb(&mut state, first);
    absorb(&mut state, second);
    to_lower_hex(state.finish())
}

/// Derives an identifier from four pieces of text. Equal inputs give equal
/// identifiers.
pub fn fingerprint_four(first: &str, second: &str, third: &str, fourth: &str) -> (id: String)
    ensures
        id@ == fingerprint_of_four(first@, second@, third@, fourth@),
{
    let mut state = DefaultHasher::new();
    absorb(&mut state, first);
    absorb(&mut state, second);
    absorb(&mut state, third);
    absorb(&mut state, fourth);
    to_lower_hex(state.finish())
}

} // verus!
