//! What a collection asks of its keys: an order and a hash.
use vstd::prelude::*;
use vstd::std_specs::iter::IteratorSpec;
use vstd::string::*;

verus! {

broadcast use vstd::string::group_string_axioms;

/// How one key stands to another in the order of keys.
#[derive(Clone, Copy, Debug, PartialEq, Eq, Structural)]
pub enum KeyOrder {
    Less,
    Equal,
    Greater,
}

/// A type whose values can be the keys of a collection.
///
/// Two keys are the same key where their models are equal. The models are
/// strictly and totally ordered by `precedes`, and `compare` and `hash` compute
/// on keys what `precedes` and `hash_of` say of their models.
pub trait GroupKey: Sized {
    /// The mathematical value of a key.
    type Model;

    /// The mathematical value of this key.
    spec fn model(&self) -> Self::Model;

    /// Whether `a` comes before `b`.
    spec fn precedes(a: Self::Model, b: Self::Model) -> bool;

    /// The hash of a key.
    spec fn hash_of(a: Self::Model) -> u64;

    /// No key comes before itself, nor two keys before each other.
    proof fn lemma_asymmetric(a: Self::Model, b: Self::Model)
        ensures
            !(Self::precedes(a, b) && Self::precedes(b, a)),
    ;

    /// What comes before a key comes before all that the key comes before.
    proof fn lemma_transitive(a: Self::Model, b: Self::Model, c: Self::Model)
        requires
            Self::precedes(a, b),
            Self::precedes(b, c),
        ensures
            Self::precedes(a, c),
    ;

    /// Of two different keys one comes before the other.
    proof fn lemma_total(a: Self::Model, b: Self::Model)
        ensures
            a == b || Self::precedes(a, b) || Self::precedes(b, a),
    ;

    /// Says how this key stands to `other` in the order of keys.
    fn compare(&self, other: &Self) -> (order: KeyOrder)
        ensures
            match order {
                KeyOrder::Less => Self::precedes(self.model(), other.model()),
                KeyOrder::Equal => self.model() == other.model(),
                KeyOrder::Greater => Self::precedes(other.model(), self.model()),
            },
    ;

    /// Returns the hash of this key.
    fn hash(&self) -> (h: u64)
        ensures
            h == Self::hash_of(self.model()),
    ;

    /// Returns another key of the same model.
    fn duplicate(&self) -> (copy: Self)
        ensures
            copy.model() == self.model(),
    ;
}

/// Whether `a` comes before `b` in the order of the dictionary, where a
/// character comes before another if its code point is the smaller one.
pub open spec fn text_precedes(a: Seq<char>, b: Seq<char>) -> bool
    decreases a.len(),
{
    if b.len() == 0 {
        false
    } else if a.len() == 0 {
        true
    } else if a[0] != b[0] {
        (a[0] as u32) < (b[0] as u32)
    } else {
        text_precedes(a.skip(1), b.skip(1))
    }
}

/// One step of the hash of a text: the hash so far and the next character.
pub open spec fn hash_step(h: u64, c: char) -> u64 {
    ((h ^ (c as u32 as u64)) as u64).wrapping_mul(0x0000_0100_0000_01b3u64)
}

/// The hash of a text: the steps folded over its characters, from the left.
pub open spec fn text_hash_from(h: u64, s: Seq<char>) -> u64
    decreases s.len(),
{
    if s.len() == 0 {
        h
    } else {
        text_hash_from(hash_step(h, s[0]), s.skip(1))
    }
}

/// The hash of a text, from the start value of the hash.
pub open spec fn text_hash(s: Seq<char>) -> u64 {
    text_hash_from(0xcbf2_9ce4_8422_2325u64, s)
}

/// No text comes before itself, nor two texts before each other.
pub proof fn lemma_text_asymmetric(a: Seq<char>, b: Seq<char>)
    ensures
        !(text_precedes(a, b) && text_precedes(b, a)),
    decreases a.len(),
{
    if a.len() > 0 && b.len() > 0 && a[0] == b[0] {
        lemma_text_asymmetric(a.skip(1), b.skip(1));
    }
}

/// What comes before a text comes before all that the text comes before.
pub proof fn lemma_text_transitive(a: Seq<char>, b: Seq<char>, c: Seq<char>)
    requires
        text_precedes(a, b),
        text_precedes(b, c),
    ensures
        text_precedes(a, c),
    decreases a.len(),
{
    if a.len() > 0 && b.len() > 0 && c.len() > 0 && a[0] == b[0] && b[0] == c[0] {
        lemma_text_transitive(a.skip(1), b.skip(1), c.skip(1));
    }
}

/// Of two different texts one comes before the other.
pub proof fn lemma_text_total(a: Seq<char>, b: Seq<char>)
    ensures
        a == b || text_precedes(a, b) || text_precedes(b, a),
    decreases a.len(),
{
    if a.len() == 0 || b.len() == 0 {
        assert(a.len() == 0 && b.len() == 0 ==> a =~= b);
    } else if a[0] != b[0] {
        vstd::utf8::char_u32_cast(a[0], a[0] as u32);
        vstd::utf8::char_u32_cast(b[0], b[0] as u32);
    } else {
        lemma_text_total(a.skip(1), b.skip(1));
        if a.skip(1) == b.skip(1) {
            assert(a =~= seq![a[0]] + a.skip(1));
            assert(b =~= seq![b[0]] + b.skip(1));
        }
    }
}

/// Compares two strings in the order of the dictionary.
pub fn compare_text(a: &str, b: &str) -> (order: KeyOrder)
    ensures
        match order {
            KeyOrder::Less => text_precedes(a@, b@),
            KeyOrder::Equal => a@ == b@,
            KeyOrder::Greater => text_precedes(b@, a@),
        },
{
    let mut x = a.chars();
    let mut y = b.chars();
    loop
        invariant
            text_precedes(x.remaining(), y.remaining()) == text_precedes(a@, b@),
            text_precedes(y.remaining(), x.remaining()) == text_precedes(b@, a@),
            (x.remaining() == y.remaining()) == (a@ == b@),
            x.decrease() is Some,
        decreases x.decrease()->0,
    {
        let ghost xs = x.remaining();
        let ghost ys = y.remaining();
        let c = x.next();
        let d = y.next();
        match c {
            None => {
                match d {
                    None => {
                        assert(xs =~= ys);
                        return KeyOrder::Equal;
                    },
                    Some(_) => {
                        return KeyOrder::Less;
                    },
                }
            },
            Some(p) => {
                match d {
                    None => {
                        return KeyOrder::Greater;
                    },
                    Some(q) => {
                        let m = p as u32;
                        let n = q as u32;
                        if m < n {
                            return KeyOrder::Less;
                        } else if m > n {
                            return KeyOrder::Greater;
                        }
                        proof {
                            vstd::utf8::char_u32_cast(p, m);
                            vstd::utf8::char_u32_cast(q, n);
                        }
                        assert(xs.skip(1) =~= xs.drop_first());
                        assert(ys.skip(1) =~= ys.drop_first());
                        assert(xs =~= seq![xs[0]] + xs.skip(1));
                        assert(ys =~= seq![ys[0]] + ys.skip(1));
                    },
                }
            },
        }
    }
}

/// Computes the hash of a string.
pub fn hash_text(s: &str) -> (h: u64)
    ensures
        h == text_hash(s@),
{
    let mut h: u64 = 0xcbf2_9ce4_8422_2325u64;
    assert(s@.skip(0) =~= s@);
    for c in it: s.chars()
        invariant
            it.seq() == s@,
            text_hash_from(h, s@.skip(it.index() as int)) == text_hash(s@),
    {
        let ghost rest = s@.skip(it.index() as int);
        assert(rest.skip(1) =~= s@.skip(it.index() + 1));
        assert(rest[0] == c);
        h = (h ^ (c as u32 as u64)).wrapping_mul(0x0000_0100_0000_01b3u64);
    }
    assert(s@.skip(s@.len() as int).len() == 0);
    h
}

impl GroupKey for String {
    type Model = Seq<char>;

    open spec fn model(&self) -> Seq<char> {
        self@
    }

    open spec fn precedes(a: Seq<char>, b: Seq<char>) -> bool {
        text_precedes(a, b)
    }

    open spec fn hash_of(a: Seq<char>) -> u64 {
        text_hash(a)
    }

    proof fn lemma_asymmetric(a: Seq<char>, b: Seq<char>) {
        lemma_text_asymmetric(a, b);
    }

    proof fn lemma_transitive(a: Seq<char>, b: Seq<char>, c: Seq<char>) {
        lemma_text_transitive(a, b, c);
    }

    proof fn lemma_total(a: Seq<char>, b: Seq<char>) {
        lemma_text_total(a, b);
    }

    fn compare(&self, other: &Self) -> (order: KeyOrder) {
        compare_text(self.as_str(), other.as_str())
    }

    fn hash(&self) -> (h: u64) {
        hash_text(self.as_str())
    }

    fn duplicate(&self) -> (copy: Self) {
        self.clone()
    }
}

} // verus!
