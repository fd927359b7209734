//! The dictionary: a Bloom filter of the crate `bloomfilter` that holds the normalized words.

use vstd::prelude::*;
use bloomfilter::Bloom;
use crate::text::strings_view;

verus! {

#[verifier::external_type_specification]
#[verifier::external_body]
#[verifier::reject_recursive_types(T)]
pub struct ExBloom<T: ?Sized>(Bloom<T>);

/// The words (by their characters) that a Bloom filter reports present: those whose hashed
/// bits are all set, which is what `Bloom::check` answers. It holds every word recorded with
/// `Bloom::set`, and may hold others (the false positives).
pub uninterp spec fn bloom_members(b: Bloom<String>) -> Set<Seq<char>>;

/// The shape of a filter: its number of bits and its number of hash functions.
pub uninterp spec fn bloom_shape(b: Bloom<String>) -> (nat, nat);

/// The shape that `Bloom::new(bitmap_size, items_count)` gives a filter: `bitmap_size * 8`
/// bits, and a number of hash functions chosen from the bits and the expected item count.
pub uninterp spec fn new_bloom_shape(bitmap_size: nat, items_count: nat) -> (nat, nat);

/// Calls `Bloom::new(bitmap_size, items_count)`. Its source allocates a bitmap of
/// `bitmap_size` zero bytes (so no item is reported present), derives the number of hash
/// functions from the bit count and `items_count`, and fails only when no random seed can be
/// had; `None` stands for that failure. Its source asserts that both sizes are positive and
/// that `bitmap_size * 8` fits in a `u64`.
#[verifier::external_body]
fn bloom_new(bitmap_size: usize, items_count: usize) -> (b: Option<Bloom<String>>)
    requires
        bitmap_size > 0,
        items_count > 0,
        bitmap_size * 8 <= u64::MAX,
    ensures
        b matches Some(b) ==> {
            &&& bloom_members(b) == Set::<Seq<char>>::empty()
            &&& bloom_shape(b) == new_bloom_shape(bitmap_size as nat, items_count as nat)
            &&& bloom_shape(b).0 == bitmap_size * 8
        },
{
    Bloom::new(bitmap_size, items_count).ok()
}

/// Calls `Bloom::set`: the bits of the item's hashes are set, so the item is reported present
/// from then on, and so is every item reported present before; setting bits may add false
/// positives. The bit count and the hash functions stay as they were. Its source takes each
/// hash modulo the bit count, so the filter must have bits.
#[verifier::external_body]
fn bloom_set(b: &mut Bloom<String>, item: &String)
    requires
        bloom_shape(*old(b)).0 > 0,
    ensures
        bloom_members(*old(b)).insert(item@).subset_of(bloom_members(*final(b))),
        bloom_shape(*final(b)) == bloom_shape(*old(b)),
{
    b.set(item)
}

/// Calls `Bloom::check`: whether all the hashed bits of the item are set. Its source takes each
/// hash modulo the bit count, so the filter must have bits.
#[verifier::external_body]
pub(crate) fn bloom_check(b: &Bloom<String>, item: &String) -> (found: bool)
    requires
        bloom_shape(*b).0 > 0,
    ensures
        found == bloom_members(*b).contains(item@),
{
    b.check(item)
}

/// Why a dictionary filter could not be made.
#[derive(Debug, Clone, Copy, PartialEq, Eq)]
pub enum DictionaryError {
    /// The filter's random hash keys could not be drawn.
    SeedUnavailable,
}

/// Records every word in a filter: every word is then reported present, as is every word
/// reported present before; the filter keeps its shape.
pub fn fill_bloom_filter(bloom: Bloom<String>, words: &[String]) -> (b: Bloom<String>)
    requires
        bloom_shape(bloom).0 > 0,
    ensures
        strings_view(words@).to_set().subset_of(bloom_members(b)),
        bloom_members(bloom).subset_of(bloom_members(b)),
        bloom_shape(b) == bloom_shape(bloom),
{
    let mut b = bloom;
    let ghost ws = strings_view(words@);
    let mut i: usize = 0;
    proof {
        assert(ws.take(0).to_set() =~= Set::<Seq<char>>::empty());
    }
    while i < words.len()
        invariant
            i <= words@.len(),
            ws == strings_view(words@),
            ws.take(i as int).to_set().subset_of(bloom_members(b)),
            bloom_members(bloom).subset_of(bloom_members(b)),
            bloom_shape(b) == bloom_shape(bloom),
            bloom_shape(bloom).0 > 0,
        decreases words@.len() - i,
    {
        bloom_set(&mut b, &words[i]);
        proof {
            assert(ws.take(i + 1) =~= ws.take(i as int).push(ws[i as int]));
            ws.take(i as int).lemma_push_to_set_commute(ws[i as int]);
        }
        i = i + 1;
    }
    assert(ws.take(words@.len() as int) =~= ws);
    b
}

/// Makes a Bloom filter of `bitmap_size` bytes sized for as many items as there are words,
/// and records every word in it: every word is then reported present.
pub fn build_bloom_filter(words: &[String], bitmap_size: usize) -> (r: Result<Bloom<String>, DictionaryError>)
    requires
        words@.len() > 0,
        bitmap_size > 0,
        bitmap_size * 8 <= u64::MAX,
    ensures
        r matches Ok(b) ==> strings_view(words@).to_set().subset_of(bloom_members(b)),
        r matches Ok(b) ==> bloom_shape(b) == new_bloom_shape(bitmap_size as nat, words@.len()),
        r matches Ok(b) ==> bloom_shape(b).0 == bitmap_size * 8,
        r matches Err(e) ==> e == DictionaryError::SeedUnavailable,
{
    match bloom_new(bitmap_size, words.len()) {
        Some(b) => Ok(fill_bloom_filter(b, words)),
        None => Err(DictionaryError::SeedUnavailable),
    }
}

} // verus!
