//! Byte order on texts, as maps keyed by text iterate.

use vstd::prelude::*;

verus! {

/// `a` comes before `b`: at the first difference `a` has the smaller byte, or
/// `a` ends there.
pub open spec fn bytes_less(a: Seq<u8>, b: Seq<u8>) -> bool
    decreases a.len(),
{
    if b.len() == 0 {
        false
    } else if a.len() == 0 {
        true
    } else if a[0] != b[0] {
        a[0] < b[0]
    } else {
        bytes_less(a.skip(1), b.skip(1))
    }
}

/// Text `a` comes before text `b`, compared by their UTF-8 bytes.
pub open spec fn text_less(a: Seq<char>, b: Seq<char>) -> bool {
    bytes_less(vstd::utf8::encode_utf8(a), vstd::utf8::encode_utf8(b))
}

/// The first difference decides: of two texts that agree up to there, the one
/// with the smaller byte comes first, or the one that ends.
pub proof fn law_first_difference_decides(a: Seq<u8>, b: Seq<u8>, i: int)
    requires
        0 <= i <= a.len(),
        i < b.len(),
        a.take(i) == b.take(i),
        i == a.len() || a[i] < b[i],
    ensures
        bytes_less(a, b),
        !bytes_less(b, a),
    decreases i,
{
    if i > 0 {
        assert(a[0] == a.take(i)[0] && b[0] == b.take(i)[0]);
        assert(a.skip(1).take(i - 1) =~= a.take(i).skip(1));
        assert(b.skip(1).take(i - 1) =~= b.take(i).skip(1));
        law_first_difference_decides(a.skip(1), b.skip(1), i - 1);
    }
}

pub proof fn lemma_bytes_less_irreflexive(a: Seq<u8>)
    ensures
        !bytes_less(a, a),
    decreases a.len(),
{
    if a.len() > 0 {
        lemma_bytes_less_irreflexive(a.skip(1));
    }
}

pub proof fn lemma_bytes_less_transitive(a: Seq<u8>, b: Seq<u8>, c: Seq<u8>)
    requires
        bytes_less(a, b),
        bytes_less(b, c),
    ensures
        bytes_less(a, c),
    decreases a.len(),
{
    if a.len() > 0 && a[0] == b[0] && b[0] == c[0] {
        lemma_bytes_less_transitive(a.skip(1), b.skip(1), c.skip(1));
    }
}

proof fn lemma_bytes_total(a: Seq<u8>, b: Seq<u8>)
    ensures
        bytes_less(a, b) || bytes_less(b, a) || a == b,
    decreases a.len(),
{
    if a.len() > 0 && b.len() > 0 && a[0] == b[0] {
        lemma_bytes_total(a.skip(1), b.skip(1));
        if a.skip(1) == b.skip(1) {
            assert(a =~= seq![a[0]] + a.skip(1));
            assert(b =~= seq![b[0]] + b.skip(1));
        }
    } else if a.len() == 0 && b.len() == 0 {
        assert(a =~= b);
    }
}

pub proof fn lemma_text_less_irreflexive(a: Seq<char>)
    ensures
        !text_less(a, a),
{
    lemma_bytes_less_irreflexive(vstd::utf8::encode_utf8(a));
}

pub proof fn lemma_text_less_transitive(a: Seq<char>, b: Seq<char>, c: Seq<char>)
    requires
        text_less(a, b),
        text_less(b, c),
    ensures
        text_less(a, c),
{
    lemma_bytes_less_transitive(
        vstd::utf8::encode_utf8(a),
        vstd::utf8::encode_utf8(b),
        vstd::utf8::encode_utf8(c),
    );
}

pub proof fn lemma_text_total(a: Seq<char>, b: Seq<char>)
    ensures
        text_less(a, b) || text_less(b, a) || a == b,
{
    lemma_bytes_total(vstd::utf8::encode_utf8(a), vstd::utf8::encode_utf8(b));
    vstd::utf8::encode_utf8_decode_utf8(a);
    vstd::utf8::encode_utf8_decode_utf8(b);
}

pub proof fn lemma_encode_concat(a: Seq<char>, b: Seq<char>)
    ensures
        vstd::utf8::encode_utf8(a + b) == vstd::utf8::encode_utf8(a) + vstd::utf8::encode_utf8(b),
    decreases a.len(),
{
    if a.len() == 0 {
        assert(a + b =~= b);
        assert(vstd::utf8::encode_utf8(a) =~= Seq::<u8>::empty());
        assert(vstd::utf8::encode_utf8(a) + vstd::utf8::encode_utf8(b)
            =~= vstd::utf8::encode_utf8(b));
    } else {
        lemma_encode_concat(a.drop_first(), b);
        assert((a + b).drop_first() =~= a.drop_first() + b);
        assert(vstd::utf8::encode_utf8(a + b) =~= vstd::utf8::encode_utf8(a)
            + vstd::utf8::encode_utf8(b));
    }
}

proof fn lemma_bytes_less_prefix(p: Seq<u8>, a: Seq<u8>, b: Seq<u8>)
    ensures
        bytes_less(p + a, p + b) == bytes_less(a, b),
    decreases p.len(),
{
    if p.len() == 0 {
        assert(p + a =~= a);
        assert(p + b =~= b);
    } else {
        lemma_bytes_less_prefix(p.skip(1), a, b);
        assert((p + a).skip(1) =~= p.skip(1) + a);
        assert((p + b).skip(1) =~= p.skip(1) + b);
    }
}

/// A common prefix does not change the order.
pub proof fn lemma_text_less_prefix(p: Seq<char>, a: Seq<char>, b: Seq<char>)
    ensures
        text_less(p + a, p + b) == text_less(a, b),
{
    lemma_encode_concat(p, a);
    lemma_encode_concat(p, b);
    lemma_bytes_less_prefix(
        vstd::utf8::encode_utf8(p),
        vstd::utf8::encode_utf8(a),
        vstd::utf8::encode_utf8(b),
    );
}

/// The three ways two texts can stand to each other.
#[derive(Debug, Clone, Copy, PartialEq, Eq, Structural)]
pub enum Place {
    Before,
    Same,
    After,
}

/// Where `a` stands to `b`.
pub open spec fn placed(a: Seq<char>, b: Seq<char>) -> Place {
    if text_less(a, b) {
        Place::Before
    } else if a == b {
        Place::Same
    } else {
        Place::After
    }
}

/// Where `a` stands to `b`.
pub fn place(a: &str, b: &str) -> (p: Place)
    ensures
        p == placed(a@, b@),
        p is After ==> text_less(b@, a@),
{
    let x: &[u8] = a.as_bytes();
    let y: &[u8] = b.as_bytes();
    let nx: usize = x.len();
    let ny: usize = y.len();
    let mut i: usize = 0;
    proof {
        lemma_text_total(a@, b@);
        lemma_text_less_irreflexive(a@);
        assert(x@.skip(0) =~= x@);
        assert(y@.skip(0) =~= y@);
    }
    while i < nx && i < ny && x[i] == y[i]
        invariant
            i <= nx,
            i <= ny,
            nx == x@.len(),
            ny == y@.len(),
            bytes_less(x@, y@) == bytes_less(x@.skip(i as int), y@.skip(i as int)),
            bytes_less(y@, x@) == bytes_less(y@.skip(i as int), x@.skip(i as int)),
        decreases nx - i,
    {
        assert(x@.skip(i as int).skip(1) =~= x@.skip(i + 1));
        assert(y@.skip(i as int).skip(1) =~= y@.skip(i + 1));
        i += 1;
    }
    if i < ny && (i == nx || x[i] < y[i]) {
        Place::Before
    } else if i == nx && i == ny {
        Place::Same
    } else {
        Place::After
    }
}

} // verus!
