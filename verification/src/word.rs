//! Field elements and words.
use vstd::prelude::*;

verus! {

/// The order of the base field: `2^64 - 2^32 + 1`.
pub const FIELD_ORDER: u64 = 0xffff_ffff_0000_0001;

/// The value of a word: its four field elements in order, each as its canonical integer.
pub type RawWord = (u64, u64, u64, u64);

/// The word of four zero elements.
pub open spec fn empty_word() -> RawWord {
    (0, 0, 0, 0)
}

/// The elements of a word, first element first.
pub open spec fn word_elements(w: RawWord) -> Seq<u64> {
    seq![w.0, w.1, w.2, w.3]
}

/// The order of words: elements are compared from the last one to the first.
pub open spec fn word_less(a: RawWord, b: RawWord) -> bool {
    ||| a.3 < b.3
    ||| a.3 == b.3 && a.2 < b.2
    ||| a.3 == b.3 && a.2 == b.2 && a.1 < b.1
    ||| a.3 == b.3 && a.2 == b.2 && a.1 == b.1 && a.0 < b.0
}

/// The canonical integers of a sequence of field elements.
pub open spec fn felt_values(s: Seq<Felt>) -> Seq<u64> {
    Seq::new(s.len(), |i: int| s[i]@)
}

/// An element of the base field, held as its canonical integer.
#[derive(Clone, Copy, Debug)]
pub struct Felt {
    value: u64,
}

impl View for Felt {
    type V = u64;

    closed spec fn view(&self) -> u64 {
        self.value
    }
}

impl Felt {
    /// The integer of a field element is less than the order of the field.
    #[verifier::type_invariant]
    pub open spec fn canonical(self) -> bool {
        self@ < FIELD_ORDER
    }

    /// The element zero.
    pub fn zero() -> (r: Felt)
        ensures
            r@ == 0,
    {
        Felt { value: 0 }
    }

    /// Creates the field element that `value` is congruent to.
    pub fn new(value: u64) -> (r: Felt)
        ensures
            r@ as int == value as int % FIELD_ORDER as int,
    {
        if value < FIELD_ORDER {
            Felt { value }
        } else {
            Felt { value: value - FIELD_ORDER }
        }
    }

    /// Returns the canonical integer of this element.
    pub fn as_canonical_u64(&self) -> (r: u64)
        ensures
            r == self@,
            r < FIELD_ORDER,
    {
        proof {
            use_type_invariant(self);
        }
        self.value
    }
}

impl PartialEq for Felt {
    fn eq(&self, other: &Felt) -> (r: bool) {
        self.value == other.value
    }
}

impl vstd::std_specs::cmp::PartialEqSpecImpl for Felt {
    open spec fn obeys_eq_spec() -> bool {
        true
    }

    open spec fn eq_spec(&self, other: &Felt) -> bool {
        self@ == other@
    }
}

impl Eq for Felt {

}

/// Four field elements.
#[derive(Clone, Copy, Debug)]
pub struct Word {
    a: Felt,
    b: Felt,
    c: Felt,
    d: Felt,
}

impl View for Word {
    type V = RawWord;

    closed spec fn view(&self) -> RawWord {
        (self.a@, self.b@, self.c@, self.d@)
    }
}

impl Word {
    /// Creates a word from its four elements.
    pub fn new(a: Felt, b: Felt, c: Felt, d: Felt) -> (r: Word)
        ensures
            r@ == (a@, b@, c@, d@),
    {
        Word { a, b, c, d }
    }

    /// Returns the word of four zero elements.
    pub fn empty() -> (r: Word)
        ensures
            r@ == empty_word(),
    {
        Word { a: Felt::zero(), b: Felt::zero(), c: Felt::zero(), d: Felt::zero() }
    }

    /// Returns true if all four elements are zero.
    pub fn is_empty(&self) -> (r: bool)
        ensures
            r == (self@ == empty_word()),
    {
        self.a.as_canonical_u64() == 0 && self.b.as_canonical_u64() == 0
            && self.c.as_canonical_u64() == 0 && self.d.as_canonical_u64() == 0
    }

    /// Returns the element at `index`.
    pub fn element(&self, index: usize) -> (r: Felt)
        requires
            index < 4,
        ensures
            r@ == word_elements(self@)[index as int],
    {
        if index == 0 {
            self.a
        } else if index == 1 {
            self.b
        } else if index == 2 {
            self.c
        } else {
            self.d
        }
    }

    /// Appends the elements of this word to `target`.
    pub fn append_to(&self, target: &mut Vec<Felt>)
        ensures
            felt_values(final(target)@) == felt_values(old(target)@) + word_elements(self@),
    {
        target.push(self.a);
        target.push(self.b);
        target.push(self.c);
        target.push(self.d);
        assert(felt_values(target@) =~= felt_values(old(target)@) + word_elements(self@));
    }
}

impl PartialEq for Word {
    fn eq(&self, other: &Word) -> (r: bool) {
        self.a == other.a && self.b == other.b && self.c == other.c && self.d == other.d
    }
}

impl vstd::std_specs::cmp::PartialEqSpecImpl for Word {
    open spec fn obeys_eq_spec() -> bool {
        true
    }

    open spec fn eq_spec(&self, other: &Word) -> bool {
        self@ == other@
    }
}

impl Eq for Word {

}

} // verus!
