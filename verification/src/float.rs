//! Floating-point values as the verified core sees them.
//!
//! The core never computes on floating-point numbers. It carries a double as
//! its IEEE 754 bit pattern, decides equality and order on the pattern, and
//! takes everything else (arithmetic, the nearest double of an integer, the
//! text of a double, the value of a literal) from a table of facts. Work
//! that needs a fact that the table lacks ends with the question; who has a
//! `FloatUnit` at hand lets the core ask it (see `unit`).
use crate::text::same_text;
use vstd::prelude::*;

verus! {

/// The bit that holds the sign.
pub const SIGN_BIT: u64 = 0x8000_0000_0000_0000;

/// The pattern of positive infinity: the largest magnitude that is no NaN.
pub const INFINITY_BITS: u64 = 0x7ff0_0000_0000_0000;

/// The pattern without its sign bit.
pub open spec fn magnitude(bits: u64) -> u64 {
    if bits >= SIGN_BIT {
        (bits - SIGN_BIT) as u64
    } else {
        bits
    }
}

/// Whether the pattern is a NaN: all exponent bits set and a non-zero fraction.
pub open spec fn is_nan(bits: u64) -> bool {
    magnitude(bits) > INFINITY_BITS
}

/// An integer that orders the patterns of all doubles but the NaNs as IEEE 754
/// orders their values; both zeros have rank 0.
pub open spec fn rank(bits: u64) -> int {
    if bits >= SIGN_BIT {
        -(magnitude(bits) as int)
    } else {
        magnitude(bits) as int
    }
}

/// IEEE 754 equality: no NaN equals anything, the two zeros are equal.
pub open spec fn float_eq(a: u64, b: u64) -> bool {
    !is_nan(a) && !is_nan(b) && rank(a) == rank(b)
}

/// IEEE 754 `<`: false as soon as one side is a NaN.
pub open spec fn float_lt(a: u64, b: u64) -> bool {
    !is_nan(a) && !is_nan(b) && rank(a) < rank(b)
}

/// Whether the pattern is a NaN.
pub fn bits_nan(bits: u64) -> (r: bool)
    ensures
        r == is_nan(bits),
{
    let m: u64 = if bits >= SIGN_BIT {
        bits - SIGN_BIT
    } else {
        bits
    };
    m > INFINITY_BITS
}

/// Equality of two doubles given by their patterns.
pub fn bits_eq(a: u64, b: u64) -> (r: bool)
    ensures
        r == float_eq(a, b),
{
    if bits_nan(a) || bits_nan(b) {
        return false;
    }
    let am: u64 = if a >= SIGN_BIT {
        a - SIGN_BIT
    } else {
        a
    };
    let bm: u64 = if b >= SIGN_BIT {
        b - SIGN_BIT
    } else {
        b
    };
    if (a >= SIGN_BIT) == (b >= SIGN_BIT) {
        am == bm
    } else {
        am == 0 && bm == 0
    }
}

/// Strict order of two doubles given by their patterns.
pub fn bits_lt(a: u64, b: u64) -> (r: bool)
    ensures
        r == float_lt(a, b),
{
    if bits_nan(a) || bits_nan(b) {
        return false;
    }
    let a_neg = a >= SIGN_BIT;
    let b_neg = b >= SIGN_BIT;
    let am: u64 = if a_neg {
        a - SIGN_BIT
    } else {
        a
    };
    let bm: u64 = if b_neg {
        b - SIGN_BIT
    } else {
        b
    };
    if a_neg && b_neg {
        am > bm
    } else if a_neg {
        am != 0 || bm != 0
    } else if b_neg {
        false
    } else {
        am < bm
    }
}

/// The four operations of arithmetic.
#[derive(Clone, Copy, PartialEq, Eq, Debug, Structural)]
pub enum FloatOp {
    Add,
    Sub,
    Mul,
    Div,
}

/// A question about doubles that the core cannot answer by itself.
#[derive(Clone, Copy, PartialEq, Eq, Debug, Structural)]
pub enum FloatQuery {
    /// The pattern of `a op b` for the doubles with patterns `a` and `b`.
    Arith(FloatOp, u64, u64),
    /// The pattern of the double nearest to an integer.
    FromInt(i64),
    /// The text that displays the double with this pattern.
    Render(u64),
}

/// What the embedder has told the core about doubles so far. Of two facts on
/// the same question the later one counts.
#[derive(Debug)]
pub struct FloatFacts {
    pub numbers: Vec<(FloatQuery, u64)>,
    pub texts: Vec<(u64, String)>,
    pub literals: Vec<(String, Option<u64>)>,
}

/// The model of a table of facts: one map for each kind of question.
pub ghost struct FloatFactsView {
    pub numbers: Map<FloatQuery, u64>,
    pub texts: Map<u64, Seq<char>>,
    pub literals: Map<Seq<char>, Option<u64>>,
    /// How many facts have been recorded, overridden ones included.
    pub recorded: nat,
}

/// The map that a list of pairs stands for: a later pair overrides an earlier
/// one with the same key.
pub open spec fn assoc<K, V>(s: Seq<(K, V)>) -> Map<K, V>
    decreases s.len(),
{
    if s.len() == 0 {
        Map::empty()
    } else {
        assoc(s.drop_last()).insert(s.last().0, s.last().1)
    }
}

/// The last pair with a given key decides what the map holds for it.
pub proof fn lemma_assoc_found<K, V>(s: Seq<(K, V)>, i: int, k: K)
    requires
        0 <= i < s.len(),
        s[i].0 == k,
        forall|j: int| i < j < s.len() ==> s[j].0 != k,
    ensures
        assoc(s).dom().contains(k),
        assoc(s)[k] == s[i].1,
    decreases s.len(),
{
    if i < s.len() - 1 {
        lemma_assoc_found(s.drop_last(), i, k);
    }
}

/// A key that no pair has is not in the map.
pub proof fn lemma_assoc_absent<K, V>(s: Seq<(K, V)>, k: K)
    requires
        forall|j: int| 0 <= j < s.len() ==> s[j].0 != k,
    ensures
        !assoc(s).dom().contains(k),
    decreases s.len(),
{
    if s.len() > 0 {
        lemma_assoc_absent(s.drop_last(), k);
    }
}

/// The recorded texts, by the models of the strings.
pub open spec fn text_pairs(v: Seq<(u64, String)>) -> Seq<(u64, Seq<char>)> {
    Seq::new(v.len(), |i: int| (v[i].0, v[i].1@))
}

/// The recorded literals, by the models of the strings.
pub open spec fn literal_pairs(v: Seq<(String, Option<u64>)>) -> Seq<(Seq<char>, Option<u64>)> {
    Seq::new(v.len(), |i: int| (v[i].0@, v[i].1))
}

impl View for FloatFacts {
    type V = FloatFactsView;

    open spec fn view(&self) -> FloatFactsView {
        FloatFactsView {
            numbers: assoc(self.numbers@),
            texts: assoc(text_pairs(self.texts@)),
            literals: assoc(literal_pairs(self.literals@)),
            recorded: self.numbers@.len() + self.texts@.len() + self.literals@.len(),
        }
    }
}

impl FloatFactsView {
    /// The table that knows nothing.
    pub open spec fn empty() -> FloatFactsView {
        FloatFactsView {
            numbers: Map::empty(),
            texts: Map::empty(),
            literals: Map::empty(),
            recorded: 0,
        }
    }

    /// The table with the answer `bits` to `q`.
    pub open spec fn with_number(self, q: FloatQuery, bits: u64) -> FloatFactsView {
        FloatFactsView {
            numbers: self.numbers.insert(q, bits),
            recorded: self.recorded + 1,
            ..self
        }
    }

    /// The table with the text `text` for the double with pattern `bits`.
    pub open spec fn with_text(self, bits: u64, text: Seq<char>) -> FloatFactsView {
        FloatFactsView {
            texts: self.texts.insert(bits, text),
            recorded: self.recorded + 1,
            ..self
        }
    }

    /// The table with the value `value` for the literal `text`.
    pub open spec fn with_literal(self, text: Seq<char>, value: Option<u64>) -> FloatFactsView {
        FloatFactsView {
            literals: self.literals.insert(text, value),
            recorded: self.recorded + 1,
            ..self
        }
    }

    /// Whether this table knows all that `other` knows.
    pub open spec fn extends(self, other: FloatFactsView) -> bool {
        &&& other.numbers.submap_of(self.numbers)
        &&& other.texts.submap_of(self.texts)
        &&& other.literals.submap_of(self.literals)
    }

    /// Whether the table answers a question.
    pub open spec fn knows(self, q: FloatQuery) -> bool {
        match q {
            FloatQuery::Render(bits) => self.texts.dom().contains(bits),
            _ => self.numbers.dom().contains(q),
        }
    }

    /// The answer to a question about numbers, if the table holds one.
    pub open spec fn number(self, q: FloatQuery) -> Option<u64> {
        if self.numbers.dom().contains(q) {
            Some(self.numbers[q])
        } else {
            None
        }
    }

    /// The text of the double with pattern `bits`, if the table holds one.
    pub open spec fn text(self, bits: u64) -> Option<Seq<char>> {
        if self.texts.dom().contains(bits) {
            Some(self.texts[bits])
        } else {
            None
        }
    }

    /// What the table holds for a literal, if it holds anything: its value,
    /// or that the text is no literal.
    pub open spec fn literal(self, text: Seq<char>) -> Option<Option<u64>> {
        if self.literals.dom().contains(text) {
            Some(self.literals[text])
        } else {
            None
        }
    }
}

/// A table that knows all that a second one knows also knows all that a
/// third one knows of which the second knows all.
pub proof fn lemma_extends_twice(a: FloatFactsView, b: FloatFactsView, c: FloatFactsView)
    requires
        a.extends(b),
        b.extends(c),
    ensures
        a.extends(c),
{
    assert forall|k: FloatQuery| #[trigger] c.numbers.dom().contains(k) implies a.numbers.dom()
        .contains(k) && a.numbers[k] == c.numbers[k] by {
        assert(b.numbers.dom().contains(k));
        assert(a.numbers.dom().contains(k));
    }
    assert forall|k: u64| #[trigger] c.texts.dom().contains(k) implies a.texts.dom().contains(k)
        && a.texts[k] == c.texts[k] by {
        assert(b.texts.dom().contains(k));
        assert(a.texts.dom().contains(k));
    }
    assert forall|k: Seq<char>| #[trigger] c.literals.dom().contains(k) implies a.literals.dom()
        .contains(k) && a.literals[k] == c.literals[k] by {
        assert(b.literals.dom().contains(k));
        assert(a.literals.dom().contains(k));
    }
}

impl FloatFacts {
    /// A table without facts.
    pub fn new() -> (r: FloatFacts)
        ensures
            r@ == FloatFactsView::empty(),
    {
        FloatFacts { numbers: Vec::new(), texts: Vec::new(), literals: Vec::new() }
    }

    /// A copy of the table.
    pub fn duplicate(&self) -> (r: FloatFacts)
        ensures
            r@ == self@,
    {
        let mut numbers: Vec<(FloatQuery, u64)> = Vec::new();
        let mut i: usize = 0;
        while i < self.numbers.len()
            invariant
                i <= self.numbers.len(),
                numbers@ == self.numbers@.subrange(0, i as int),
            decreases self.numbers.len() - i,
        {
            numbers.push(self.numbers[i]);
            i += 1;
        }
        assert(numbers@ == self.numbers@);
        let mut texts: Vec<(u64, String)> = Vec::new();
        let mut j: usize = 0;
        while j < self.texts.len()
            invariant
                j <= self.texts.len(),
                texts@ == self.texts@.subrange(0, j as int),
            decreases self.texts.len() - j,
        {
            texts.push((self.texts[j].0, self.texts[j].1.clone()));
            j += 1;
        }
        assert(texts@ == self.texts@);
        let mut literals: Vec<(String, Option<u64>)> = Vec::new();
        let mut k: usize = 0;
        while k < self.literals.len()
            invariant
                k <= self.literals.len(),
                literals@ == self.literals@.subrange(0, k as int),
            decreases self.literals.len() - k,
        {
            literals.push((self.literals[k].0.clone(), self.literals[k].1));
            k += 1;
        }
        assert(literals@ == self.literals@);
        FloatFacts { numbers, texts, literals }
    }

    /// The recorded answer to `q`, if there is one.
    pub fn number(&self, q: FloatQuery) -> (r: Option<u64>)
        ensures
            r == self@.number(q),
    {
        let mut i: usize = self.numbers.len();
        while i > 0
            invariant
                i <= self.numbers.len(),
                forall|j: int| i <= j < self.numbers.len() ==> self.numbers@[j].0 != q,
            decreases i,
        {
            i -= 1;
            if self.numbers[i].0 == q {
                proof {
                    lemma_assoc_found(self.numbers@, i as int, q);
                }
                return Some(self.numbers[i].1);
            }
        }
        proof {
            lemma_assoc_absent(self.numbers@, q);
        }
        None
    }

    /// The recorded text of the double with pattern `bits`, if there is one.
    pub fn text(&self, bits: u64) -> (r: Option<String>)
        ensures
            match r {
                Some(s) => self@.text(bits) == Some(s@),
                None => self@.text(bits) is None,
            },
    {
        let mut i: usize = self.texts.len();
        while i > 0
            invariant
                i <= self.texts.len(),
                forall|j: int| i <= j < self.texts.len() ==> self.texts@[j].0 != bits,
            decreases i,
        {
            i -= 1;
            if self.texts[i].0 == bits {
                proof {
                    lemma_assoc_found(text_pairs(self.texts@), i as int, bits);
                }
                return Some(self.texts[i].1.clone());
            }
        }
        proof {
            lemma_assoc_absent(text_pairs(self.texts@), bits);
        }
        None
    }

    /// The recorded value of a literal, if there is one: `Some(None)` says that
    /// the text is known to be no literal.
    pub fn literal(&self, text: &str) -> (r: Option<Option<u64>>)
        ensures
            r == self@.literal(text@),
    {
        let mut i: usize = self.literals.len();
        while i > 0
            invariant
                i <= self.literals.len(),
                forall|j: int| i <= j < self.literals.len() ==> self.literals@[j].0@ != text@,
            decreases i,
        {
            i -= 1;
            if same_text(self.literals[i].0.as_str(), text) {
                proof {
                    lemma_assoc_found(literal_pairs(self.literals@), i as int, text@);
                }
                return Some(self.literals[i].1);
            }
        }
        proof {
            lemma_assoc_absent(literal_pairs(self.literals@), text@);
        }
        None
    }

    /// Records the answer to a question about numbers.
    pub fn learn_number(&mut self, q: FloatQuery, bits: u64)
        ensures
            final(self)@ == old(self)@.with_number(q, bits),
    {
        self.numbers.push((q, bits));
        assert(self.numbers@.drop_last() == old(self).numbers@);
    }

    /// Records the text of a double.
    pub fn learn_text(&mut self, bits: u64, text: String)
        ensures
            final(self)@ == old(self)@.with_text(bits, text@),
    {
        self.texts.push((bits, text));
        assert(text_pairs(self.texts@).drop_last() == text_pairs(old(self).texts@));
    }

    /// Records the value of a literal, or that the text is none.
    pub fn learn_literal(&mut self, text: String, value: Option<u64>)
        ensures
            final(self)@ == old(self)@.with_literal(text@, value),
    {
        self.literals.push((text, value));
        assert(literal_pairs(self.literals@).drop_last() == literal_pairs(old(self).literals@));
    }
}

} // verus!
