//! The order in which names are kept: byte by byte over their UTF-8 encoding,
//! a shorter name before each of its extensions.

use vstd::prelude::*;
use vstd::string::*;
use vstd::utf8::*;

verus! {

/// Where one name stands relative to another.
#[derive(Clone, Copy, Debug, PartialEq, Eq)]
pub enum Placement {
    /// Strictly earlier in the order.
    Before,
    /// The same name.
    Same,
    /// Strictly later in the order.
    After,
}

/// Lexicographic order on byte strings.
pub open spec fn bytes_before(a: Seq<u8>, b: Seq<u8>) -> bool
    decreases a.len(),
{
    if b.len() == 0 {
        false
    } else if a.len() == 0 {
        true
    } else if a[0] != b[0] {
        a[0] < b[0]
    } else {
        bytes_before(a.drop_first(), b.drop_first())
    }
}

/// `a` comes strictly before `b`: the UTF-8 bytes of `a` are lexicographically
/// smaller than those of `b`.
pub open spec fn name_before(a: Seq<char>, b: Seq<char>) -> bool {
    bytes_before(encode_utf8(a), encode_utf8(b))
}

/// Every name stands strictly before the next one.
pub open spec fn ascending(names: Seq<Seq<char>>) -> bool {
    forall|i: int, j: int| 0 <= i < j < names.len() ==> name_before(names[i], names[j])
}

/// No name occurs twice.
pub open spec fn distinct(names: Seq<Seq<char>>) -> bool {
    forall|i: int, j: int| 0 <= i < j < names.len() ==> names[i] != names[j]
}

pub proof fn lemma_bytes_before_irreflexive(a: Seq<u8>)
    ensures
        !bytes_before(a, a),
    decreases a.len(),
{
    if a.len() > 0 {
        lemma_bytes_before_irreflexive(a.drop_first());
    }
}

pub proof fn lemma_bytes_before_transitive(a: Seq<u8>, b: Seq<u8>, c: Seq<u8>)
    requires
        bytes_before(a, b),
        bytes_before(b, c),
    ensures
        bytes_before(a, c),
    decreases a.len(),
{
    if a.len() > 0 && a[0] == b[0] && b[0] == c[0] {
        lemma_bytes_before_transitive(a.drop_first(), b.drop_first(), c.drop_first());
    }
}

pub proof fn lemma_bytes_before_total(a: Seq<u8>, b: Seq<u8>)
    ensures
        a == b || bytes_before(a, b) || bytes_before(b, a),
    decreases a.len(),
{
    if a.len() > 0 && b.len() > 0 && a[0] == b[0] {
        lemma_bytes_before_total(a.drop_first(), b.drop_first());
        if a.drop_first() == b.drop_first() {
            assert(a =~= seq![a[0]] + a.drop_first());
            assert(b =~= seq![b[0]] + b.drop_first());
        }
    } else if a.len() == 0 && b.len() == 0 {
        assert(a =~= b);
    }
}

/// Two byte strings that agree on their first `n` bytes compare as what
/// follows those bytes.
pub proof fn lemma_bytes_before_skip(a: Seq<u8>, b: Seq<u8>, n: int)
    requires
        0 <= n <= a.len(),
        n <= b.len(),
        forall|j: int| 0 <= j < n ==> a[j] == b[j],
    ensures
        bytes_before(a, b) == bytes_before(a.skip(n), b.skip(n)),
    decreases n,
{
    if n == 0 {
        assert(a.skip(0) =~= a);
        assert(b.skip(0) =~= b);
    } else {
        lemma_bytes_before_skip(a, b, n - 1);
        let x = a.skip(n - 1);
        let y = b.skip(n - 1);
        assert(x[0] == y[0]);
        assert(x.drop_first() =~= a.skip(n));
        assert(y.drop_first() =~= b.skip(n));
    }
}

/// No name stands before itself.
pub proof fn lemma_name_before_irreflexive(a: Seq<char>)
    ensures
        !name_before(a, a),
{
    lemma_bytes_before_irreflexive(encode_utf8(a));
}

/// The order is transitive.
pub proof fn lemma_name_before_transitive(a: Seq<char>, b: Seq<char>, c: Seq<char>)
    requires
        name_before(a, b),
        name_before(b, c),
    ensures
        name_before(a, c),
{
    lemma_bytes_before_transitive(encode_utf8(a), encode_utf8(b), encode_utf8(c));
}

/// Of two different names one stands before the other, and never both ways.
pub proof fn lemma_name_before_total(a: Seq<char>, b: Seq<char>)
    ensures
        a == b || name_before(a, b) || name_before(b, a),
        !(name_before(a, b) && name_before(b, a)),
        a == b ==> !name_before(a, b),
{
    lemma_bytes_before_total(encode_utf8(a), encode_utf8(b));
    encode_utf8_decode_utf8(a);
    encode_utf8_decode_utf8(b);
    lemma_bytes_before_irreflexive(encode_utf8(a));
    if name_before(a, b) && name_before(b, a) {
        lemma_bytes_before_transitive(encode_utf8(a), encode_utf8(b), encode_utf8(a));
    }
}

/// In an ascending sequence no name occurs twice.
pub proof fn lemma_ascending_distinct(names: Seq<Seq<char>>, i: int, j: int)
    requires
        ascending(names),
        0 <= i < names.len(),
        0 <= j < names.len(),
        names[i] == names[j],
    ensures
        i == j,
{
    lemma_name_before_irreflexive(names[i]);
}

/// Names that ascend are distinct.
pub proof fn lemma_ascending_is_distinct(names: Seq<Seq<char>>)
    requires
        ascending(names),
    ensures
        distinct(names),
{
    assert forall|i: int, j: int| 0 <= i < j < names.len() implies names[i] != names[j] by {
        assert(name_before(names[i], names[j]));
        lemma_name_before_irreflexive(names[i]);
    }
}

/// Two ascending sequences of the same names are the same sequence.
pub proof fn lemma_ascending_unique(a: Seq<Seq<char>>, b: Seq<Seq<char>>)
    requires
        ascending(a),
        ascending(b),
        forall|name: Seq<char>| a.contains(name) <==> b.contains(name),
    ensures
        a == b,
    decreases a.len(),
{
    if a.len() == 0 {
        if b.len() > 0 {
            assert(b.contains(b[0]));
        }
        assert(a =~= b);
    } else {
        assert(a.contains(a[0]));
        let x = a.last();
        let y = b.last();
        assert(a.contains(x));
        assert(b.contains(y));
        let i = choose|i: int| 0 <= i < b.len() && b[i] == x;
        let j = choose|j: int| 0 <= j < a.len() && a[j] == y;
        lemma_name_before_total(x, y);
        if i < b.len() - 1 {
            assert(name_before(b[i], b[b.len() - 1]));
        }
        if j < a.len() - 1 {
            assert(name_before(a[j], a[a.len() - 1]));
        }
        assert(x == y);
        let front_a = a.drop_last();
        let front_b = b.drop_last();
        assert forall|name: Seq<char>| front_a.contains(name) <==> front_b.contains(name) by {
            if front_a.contains(name) {
                let k = choose|k: int| 0 <= k < front_a.len() && front_a[k] == name;
                assert(a[k] == name);
                assert(name_before(a[k], a[a.len() - 1]));
                lemma_name_before_irreflexive(name);
                assert(a.contains(name));
                let m = choose|m: int| 0 <= m < b.len() && b[m] == name;
                assert(front_b[m] == name);
            }
            if front_b.contains(name) {
                let k = choose|k: int| 0 <= k < front_b.len() && front_b[k] == name;
                assert(b[k] == name);
                assert(name_before(b[k], b[b.len() - 1]));
                lemma_name_before_irreflexive(name);
                assert(b.contains(name));
                let m = choose|m: int| 0 <= m < a.len() && a[m] == name;
                assert(front_a[m] == name);
            }
        }
        lemma_ascending_unique(front_a, front_b);
        assert(a =~= front_a.push(x));
        assert(b =~= front_b.push(y));
    }
}

/// Places `a` relative to `b` in the order of names.
pub fn place(a: &str, b: &str) -> (r: Placement)
    ensures
        (r == Placement::Before) == name_before(a@, b@),
        (r == Placement::Same) == (a@ == b@),
        (r == Placement::After) == name_before(b@, a@),
{
    let x = a.as_bytes();
    let y = b.as_bytes();
    proof {
        lemma_name_before_total(a@, b@);
    }
    let mut i: usize = 0;
    while i < x.len() && i < y.len()
        invariant
            x@ == encode_utf8(a@),
            y@ == encode_utf8(b@),
            i <= x@.len(),
            i <= y@.len(),
            forall|j: int| 0 <= j < i ==> x@[j] == y@[j],
        decreases x@.len() - i,
    {
        if x[i] != y[i] {
            proof {
                lemma_name_before_total(a@, b@);
                lemma_bytes_before_skip(x@, y@, i as int);
                lemma_bytes_before_skip(y@, x@, i as int);
                assert(x@.skip(i as int)[0] == x@[i as int]);
                assert(y@.skip(i as int)[0] == y@[i as int]);
            }
            if x[i] < y[i] {
                return Placement::Before;
            } else {
                return Placement::After;
            }
        }
        i = i + 1;
    }
    proof {
        lemma_bytes_before_skip(x@, y@, i as int);
        lemma_bytes_before_skip(y@, x@, i as int);
    }
    if i < y.len() {
        Placement::Before
    } else if i < x.len() {
        Placement::After
    } else {
        proof {
            assert(x@ =~= y@);
            encode_utf8_decode_utf8(a@);
            encode_utf8_decode_utf8(b@);
        }
        Placement::Same
    }
}

/// Whether two names are the same.
pub fn same_name(a: &str, b: &str) -> (r: bool)
    ensures
        r == (a@ == b@),
{
    match place(a, b) {
        Placement::Same => true,
        _ => false,
    }
}

} // verus!
