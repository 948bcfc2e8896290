use crate::object::object_name::ObjectName;
use vstd::prelude::*;

verus! {

/// The number of 64-bit words needed to hold one bit per [`ObjectName`].
pub const OBJECT_NAME_SET_WORDS: usize = 3;

/// A set of [`ObjectName`]s, stored as one bit per name in a fixed number of words. Used by the wave function collapse
/// to record which states of a cell are permitted; it needs no hashing and no heap allocation.
#[derive(Clone, Copy, Debug)]
pub struct PermittedObjectNames(pub [u64; OBJECT_NAME_SET_WORDS]);

/// Whether bit `bit` of `word` is set.
pub open spec fn bit_is_set(word: u64, bit: u64) -> bool {
    (word >> bit) & 1u64 == 1u64
}

/// Setting bit `b` of a word sets that bit and leaves every other bit as it was.
proof fn lemma_set_bit(word: u64, b: u64)
    requires
        b < 64,
    ensures
        bit_is_set(word | (1u64 << b), b),
        forall|c: u64| c < 64 && c != b ==> bit_is_set(word | (1u64 << b), c) == bit_is_set(word, c),
{
    assert(((word | (1u64 << b)) >> b) & 1u64 == 1u64) by (bit_vector)
        requires
            b < 64,
    ;
    assert forall|c: u64| c < 64 && c != b implies bit_is_set(word | (1u64 << b), c) == bit_is_set(
        word,
        c,
    ) by {
        assert(((word | (1u64 << b)) >> c) & 1u64 == (word >> c) & 1u64) by (bit_vector)
            requires
                b < 64,
                c < 64,
                c != b,
        ;
    }
}

/// A word with no bits set has no bit set.
proof fn lemma_zero_has_no_bits()
    ensures
        forall|c: u64| c < 64 ==> !bit_is_set(0u64, c),
{
    assert forall|c: u64| c < 64 implies !bit_is_set(0u64, c) by {
        assert((0u64 >> c) & 1u64 == 0u64) by (bit_vector);
    }
}

impl PermittedObjectNames {
    /// The word holding the bit of `name`.
    pub open spec fn word_of(name: ObjectName) -> int {
        name.ordinal() as int / 64
    }

    /// The position of the bit of `name` within its word.
    pub open spec fn bit_of(name: ObjectName) -> u64 {
        (name.ordinal() % 64) as u64
    }

    /// Whether `name` is in the set whose words are `words`.
    pub open spec fn words_have(words: Seq<u64>, name: ObjectName) -> bool {
        bit_is_set(words[PermittedObjectNames::word_of(name)], PermittedObjectNames::bit_of(name))
    }

    /// The words of the set after adding `name` to the set whose words are `words`.
    pub open spec fn words_with(words: Seq<u64>, name: ObjectName) -> Seq<u64> {
        let w = PermittedObjectNames::word_of(name);
        words.update(w, words[w] | (1u64 << PermittedObjectNames::bit_of(name)))
    }

    /// Whether `name` is in the set.
    pub open spec fn has(self, name: ObjectName) -> bool {
        PermittedObjectNames::words_have(self.0@, name)
    }

    /// Adds `name` to the set; every other name keeps its membership.
    pub fn insert(&mut self, name: ObjectName)
        ensures
            final(self).0@ == PermittedObjectNames::words_with(old(self).0@, name),
            final(self).has(name),
            forall|other: ObjectName| other != name ==> final(self).has(other) == old(self).has(other),
    {
        let index = name.to_index();
        let word = index / 64;
        let bit = index % 64;
        proof {
            lemma_set_bit(self.0@[word as int], bit as u64);
        }
        let updated = self.0[word] | (1u64 << bit as u64);
        self.0[word] = updated;
        proof {
            assert forall|other: ObjectName| other != name implies self.has(other) == old(self).has(
                other,
            ) by {
                ObjectName::lemma_ordinal_injective(other, name);
                other.lemma_ordinal_round_trip();
                if PermittedObjectNames::word_of(other) == word as int {
                    assert(PermittedObjectNames::bit_of(other) != bit as u64);
                }
            }
        }
    }

    /// Returns whether `name` is in the set.
    pub fn contains(&self, name: ObjectName) -> (result: bool)
        ensures
            result == self.has(name),
    {
        let index = name.to_index();
        let word = index / 64;
        let bit = index % 64;
        (self.0[word] >> bit as u64) & 1u64 == 1u64
    }
}

impl Default for PermittedObjectNames {
    /// The empty set.
    fn default() -> (set: PermittedObjectNames)
        ensures
            forall|name: ObjectName| !set.has(name),
    {
        proof {
            lemma_zero_has_no_bits();
        }
        PermittedObjectNames([0u64; OBJECT_NAME_SET_WORDS])
    }
}

/// After adding a name to a set, exactly the names that were in the set and the added name are in it.
pub proof fn lemma_insert_then_contains(words: Seq<u64>, inserted: ObjectName, candidate: ObjectName)
    requires
        words.len() == OBJECT_NAME_SET_WORDS,
    ensures
        PermittedObjectNames::words_have(PermittedObjectNames::words_with(words, inserted), candidate) == (
        candidate == inserted || PermittedObjectNames::words_have(words, candidate)),
{
    inserted.lemma_ordinal_round_trip();
    candidate.lemma_ordinal_round_trip();
    ObjectName::lemma_ordinal_injective(inserted, candidate);
    let w = PermittedObjectNames::word_of(inserted);
    lemma_set_bit(words[w], PermittedObjectNames::bit_of(inserted));
}

/// Adding a name that is already in a set leaves the set's words unchanged.
pub proof fn lemma_insert_idempotent(words: Seq<u64>, name: ObjectName)
    requires
        words.len() == OBJECT_NAME_SET_WORDS,
        PermittedObjectNames::words_have(words, name),
    ensures
        PermittedObjectNames::words_with(words, name) == words,
{
    name.lemma_ordinal_round_trip();
    let w = PermittedObjectNames::word_of(name);
    let b = PermittedObjectNames::bit_of(name);
    let x = words[w];
    assert(x | (1u64 << b) == x) by (bit_vector)
        requires
            b < 64,
            (x >> b) & 1u64 == 1u64,
    ;
    assert(PermittedObjectNames::words_with(words, name) =~= words);
}

} // verus!
