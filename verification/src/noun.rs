//! Nouns, the values of the interpreter: an atom is a natural number, a
//! cell is a pair of nouns. Atoms that fit 64 bits are held as a word,
//! larger ones as their bytes, low byte first.

use vstd::prelude::*;

verus! {

/// A noun.
#[derive(Debug)]
pub enum Noun {
    /// An atom that fits 64 bits.
    Atom(u64),
    /// A larger atom, by its bytes.
    BigAtom(Vec<u8>),
    /// A pair of nouns.
    Cell(Box<Noun>, Box<Noun>),
}

/// Whether two nouns are the same: the same word, the same bytes, or cells
/// of the same nouns.
pub open spec fn same_noun(a: Noun, b: Noun) -> bool
    decreases a,
{
    match (a, b) {
        (Noun::Atom(v), Noun::Atom(w)) => v == w,
        (Noun::BigAtom(x), Noun::BigAtom(y)) => x@ == y@,
        (Noun::Cell(h1, t1), Noun::Cell(h2, t2)) => same_noun(*h1, *h2) && same_noun(*t1, *t2),
        _ => false,
    }
}

/// The cell of `a` and `b`.
pub open spec fn pair(a: Noun, b: Noun) -> Noun {
    Noun::Cell(Box::new(a), Box::new(b))
}

/// The list of the items: each item paired with the rest, closed by the
/// atom zero.
pub open spec fn noun_list(items: Seq<Noun>) -> Noun
    decreases items.len(),
{
    if items.len() == 0 {
        Noun::Atom(0)
    } else {
        pair(items[0], noun_list(items.drop_first()))
    }
}

/// The part of a noun at an axis: axis one is the noun itself, axis `2n`
/// the head and `2n + 1` the tail of the part at axis `n`. There is no
/// part at axis zero, nor below an atom.
pub open spec fn part_at(n: Noun, axis: nat) -> Option<Noun>
    decreases axis,
{
    if axis == 0 {
        None
    } else if axis == 1 {
        Some(n)
    } else {
        match part_at(n, axis / 2) {
            Some(Noun::Cell(head, tail)) => if axis % 2 == 0 {
                Some(*head)
            } else {
                Some(*tail)
            },
            _ => None,
        }
    }
}

/// Whether two byte strings are the same.
pub fn bytes_equal(a: &[u8], b: &[u8]) -> (r: bool)
    ensures
        r == (a@ == b@),
{
    let n = a.len();
    if n != b.len() {
        return false;
    }
    let mut i: usize = 0;
    while i < n
        invariant
            n == a@.len(),
            n == b@.len(),
            i <= n,
            forall|k: int| 0 <= k < i ==> a@[k] == b@[k],
        decreases n - i,
    {
        if a[i] != b[i] {
            proof {
                assert(a@[i as int] != b@[i as int]);
            }
            return false;
        }
        i = i + 1;
    }
    proof {
        assert(a@ =~= b@);
    }
    true
}

impl Noun {
    /// The cell of `a` and `b`.
    pub fn cell(a: Noun, b: Noun) -> (r: Noun)
        ensures
            r == pair(a, b),
    {
        Noun::Cell(Box::new(a), Box::new(b))
    }

    /// Whether two nouns are the same.
    pub fn same(&self, other: &Noun) -> (b: bool)
        ensures
            b == same_noun(*self, *other),
        decreases *self,
    {
        match self {
            Noun::Atom(v) => match other {
                Noun::Atom(w) => *v == *w,
                _ => false,
            },
            Noun::BigAtom(bytes) => match other {
                Noun::BigAtom(others) => bytes_equal(bytes.as_slice(), others.as_slice()),
                _ => false,
            },
            Noun::Cell(head, tail) => match other {
                Noun::Cell(other_head, other_tail) => head.same(other_head) && tail.same(
                    other_tail,
                ),
                _ => false,
            },
        }
    }

    /// Whether the noun is the atom zero.
    pub fn is_null(&self) -> (b: bool)
        ensures
            b == (*self == Noun::Atom(0)),
    {
        match self {
            Noun::Atom(v) => *v == 0,
            _ => false,
        }
    }

    /// The value of the noun as a word, if it is an atom that fits one.
    pub fn as_u64(&self) -> (r: Option<u64>)
        ensures
            r == match *self {
                Noun::Atom(v) => Some(v),
                _ => None,
            },
    {
        match self {
            Noun::Atom(v) => Some(*v),
            _ => None,
        }
    }
}

/// The part of `noun` at `axis`.
pub fn slot(noun: &Noun, axis: u64) -> (r: Option<&Noun>)
    ensures
        match r {
            Some(part) => part_at(*noun, axis as nat) == Some(*part),
            None => part_at(*noun, axis as nat) is None,
        },
    decreases axis,
{
    if axis == 0 {
        None
    } else if axis == 1 {
        Some(noun)
    } else {
        match slot(noun, axis / 2) {
            Some(parent) => match parent {
                Noun::Cell(head, tail) => if axis % 2 == 0 {
                    Some(&**head)
                } else {
                    Some(&**tail)
                },
                _ => None,
            },
            None => None,
        }
    }
}

/// The list of the items, closed by the atom zero.
pub fn safe_list(items: Vec<Noun>) -> (list: Noun)
    ensures
        list == noun_list(items@),
{
    let ghost all = items@;
    let mut items = items;
    let mut list = Noun::Atom(0);
    proof {
        assert(all.subrange(all.len() as int, all.len() as int) =~= Seq::<Noun>::empty());
    }
    while items.len() > 0
        invariant
            items@.len() <= all.len(),
            items@ == all.subrange(0, items@.len() as int),
            list == noun_list(all.subrange(items@.len() as int, all.len() as int)),
        decreases items@.len(),
    {
        let ghost k = items@.len() as int;
        let item = match items.pop() {
            Some(item) => item,
            None => Noun::Atom(0),
        };
        proof {
            let rest = all.subrange(k - 1, all.len() as int);
            assert(rest.drop_first() =~= all.subrange(k, all.len() as int));
            assert(rest[0] == item);
            assert(items@ =~= all.subrange(0, k - 1));
        }
        list = Noun::cell(item, list);
    }
    proof {
        assert(all.subrange(0, all.len() as int) =~= all);
    }
    list
}

/// The value that up to eight bytes stand for, low byte first.
pub open spec fn le_value(bytes: Seq<u8>) -> nat
    decreases bytes.len(),
{
    if bytes.len() == 0 {
        0
    } else {
        (bytes[0] as nat + 256 * le_value(bytes.drop_first())) as nat
    }
}

/// The atom that the bytes stand for, low byte first: a word for up to
/// eight bytes, else the bytes themselves.
pub fn create_safe_atom_from_bytes(bytes: &[u8]) -> (r: Noun)
    ensures
        bytes@.len() <= 8 ==> r == Noun::Atom(le_value(bytes@) as u64) && le_value(bytes@)
            <= u64::MAX,
        bytes@.len() > 8 ==> (r matches Noun::BigAtom(held) && held@ == bytes@),
{
    let n = bytes.len();
    if n <= 8 {
        let mut value: u64 = 0;
        let mut i: usize = n;
        proof {
            assert(bytes@.subrange(n as int, n as int) =~= Seq::<u8>::empty());
            lemma_pow256(0);
        }
        while i > 0
            invariant
                n == bytes@.len(),
                n <= 8,
                i <= n,
                value == le_value(bytes@.subrange(i as int, n as int)),
                value < vstd::arithmetic::power::pow(256, (n - i) as nat),
                vstd::arithmetic::power::pow(256, (n - i) as nat) <= 0x1_0000_0000_0000_0000,
            decreases i,
        {
            proof {
                let rest = bytes@.subrange(i - 1, n as int);
                assert(rest.drop_first() =~= bytes@.subrange(i as int, n as int));
                lemma_pow256((n - i) as nat);
                lemma_pow256((n - i + 1) as nat);
            }
            i = i - 1;
            value = value * 256 + bytes[i] as u64;
        }
        proof {
            assert(bytes@.subrange(0, n as int) =~= bytes@);
        }
        Noun::Atom(value)
    } else {
        Noun::BigAtom(vstd::slice::slice_to_vec(bytes))
    }
}

/// The powers of 256 up to the eighth.
proof fn lemma_pow256(k: nat)
    requires
        k <= 8,
    ensures
        vstd::arithmetic::power::pow(256, k) == if k == 0 {
            1int
        } else if k == 1 {
            0x100int
        } else if k == 2 {
            0x1_0000int
        } else if k == 3 {
            0x100_0000int
        } else if k == 4 {
            0x1_0000_0000int
        } else if k == 5 {
            0x100_0000_0000int
        } else if k == 6 {
            0x1_0000_0000_0000int
        } else if k == 7 {
            0x100_0000_0000_0000int
        } else {
            0x1_0000_0000_0000_0000int
        },
{
    reveal_with_fuel(vstd::arithmetic::power::pow, 10);
}

} // verus!
