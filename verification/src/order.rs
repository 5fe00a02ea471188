//! The order of strings, and sorting by rank.
use vstd::prelude::*;
use vstd::slice::{slice_subrange, slice_to_vec};
use vstd::utf8::encode_utf8;

verus! {

/// Whether `a` is at most `b` byte by byte, a prefix before what it begins.
pub open spec fn bytes_at_most(a: Seq<u8>, b: Seq<u8>) -> bool
    decreases a.len(),
{
    if a.len() == 0 {
        true
    } else if b.len() == 0 {
        false
    } else if a[0] != b[0] {
        a[0] < b[0]
    } else {
        bytes_at_most(a.skip(1), b.skip(1))
    }
}

/// Whether a text is at most another in the order of their UTF-8 bytes.
pub open spec fn text_at_most(a: Seq<char>, b: Seq<char>) -> bool {
    bytes_at_most(encode_utf8(a), encode_utf8(b))
}

pub proof fn lemma_bytes_reflexive(a: Seq<u8>)
    ensures
        bytes_at_most(a, a),
    decreases a.len(),
{
    if a.len() > 0 {
        lemma_bytes_reflexive(a.skip(1));
    }
}

pub proof fn lemma_bytes_total(a: Seq<u8>, b: Seq<u8>)
    ensures
        bytes_at_most(a, b) || bytes_at_most(b, a),
    decreases a.len(),
{
    if a.len() > 0 && b.len() > 0 && a[0] == b[0] {
        lemma_bytes_total(a.skip(1), b.skip(1));
    }
}

pub proof fn lemma_bytes_transitive(a: Seq<u8>, b: Seq<u8>, c: Seq<u8>)
    requires
        bytes_at_most(a, b),
        bytes_at_most(b, c),
    ensures
        bytes_at_most(a, c),
    decreases a.len(),
{
    if a.len() > 0 && b.len() > 0 && c.len() > 0 && a[0] == b[0] && b[0] == c[0] {
        lemma_bytes_transitive(a.skip(1), b.skip(1), c.skip(1));
    }
}

pub proof fn lemma_bytes_antisymmetric(a: Seq<u8>, b: Seq<u8>)
    requires
        bytes_at_most(a, b),
        bytes_at_most(b, a),
    ensures
        a == b,
    decreases a.len(),
{
    if a.len() > 0 && b.len() > 0 && a[0] == b[0] {
        lemma_bytes_antisymmetric(a.skip(1), b.skip(1));
        assert(a =~= seq![a[0]] + a.skip(1));
        assert(b =~= seq![b[0]] + b.skip(1));
    } else {
        assert(a =~= b);
    }
}

/// Texts that are at most each other are the same.
pub proof fn lemma_text_antisymmetric(a: Seq<char>, b: Seq<char>)
    requires
        text_at_most(a, b),
        text_at_most(b, a),
    ensures
        a == b,
{
    lemma_bytes_antisymmetric(encode_utf8(a), encode_utf8(b));
    vstd::utf8::encode_utf8_decode_utf8(a);
    vstd::utf8::encode_utf8_decode_utf8(b);
}

/// Whether a text is at most another in the order of their UTF-8 bytes.
pub fn is_text_at_most(a: &str, b: &str) -> (result: bool)
    ensures
        result == text_at_most(a@, b@),
{
    let x = a.as_bytes();
    let y = b.as_bytes();
    let mut i: usize = 0;
    proof {
        assert(x@.skip(0) =~= x@);
        assert(y@.skip(0) =~= y@);
    }
    loop
        invariant
            i <= x.len(),
            i <= y.len(),
            x@ == encode_utf8(a@),
            y@ == encode_utf8(b@),
            bytes_at_most(x@, y@) == bytes_at_most(x@.skip(i as int), y@.skip(i as int)),
        decreases x.len() - i,
    {
        if i >= x.len() {
            return true;
        }
        if i >= y.len() {
            return false;
        }
        proof {
            assert(x@.skip(i as int)[0] == x@[i as int]);
            assert(y@.skip(i as int)[0] == y@[i as int]);
            assert(x@.skip(i as int).skip(1) =~= x@.skip(i + 1));
            assert(y@.skip(i as int).skip(1) =~= y@.skip(i + 1));
        }
        if x[i] != y[i] {
            return x[i] < y[i];
        }
        i += 1;
    }
}

/// An order of numbered things.
pub trait Ranking {
    /// Whether a number is that of a thing.
    spec fn knows(&self, a: usize) -> bool;

    /// Whether thing `a` is to stand before thing `b`, or may.
    spec fn at_most(&self, a: usize, b: usize) -> bool;

    proof fn total(&self, a: usize, b: usize)
        requires
            self.knows(a),
            self.knows(b),
        ensures
            self.at_most(a, b) || self.at_most(b, a),
    ;

    proof fn transitive(&self, a: usize, b: usize, c: usize)
        requires
            self.knows(a),
            self.knows(b),
            self.knows(c),
            self.at_most(a, b),
            self.at_most(b, c),
        ensures
            self.at_most(a, c),
    ;

    /// Whether thing `a` is to stand before thing `b`, or may.
    fn is_at_most(&self, a: usize, b: usize) -> (result: bool)
        requires
            self.knows(a),
            self.knows(b),
        ensures
            result == self.at_most(a, b),
    ;
}

/// Whether things stand in order.
pub open spec fn in_order<R: Ranking>(ranking: &R, things: Seq<usize>) -> bool {
    forall|i: int, j: int| 0 <= i < j < things.len() ==> ranking.at_most(things[i], things[j])
}

/// Whether the ranking knows all the things.
pub open spec fn knows_all<R: Ranking>(ranking: &R, things: Seq<usize>) -> bool {
    forall|i: int| 0 <= i < things.len() ==> ranking.knows(#[trigger] things[i])
}

proof fn lemma_push(things: Seq<usize>, x: usize)
    ensures
        things.push(x).to_multiset() == things.to_multiset().insert(x),
{
    broadcast use vstd::seq_lib::group_to_multiset_ensures;

}

/// Two ordered lists as one.
fn merged<R: Ranking>(ranking: &R, a: &[usize], b: &[usize]) -> (result: Vec<usize>)
    requires
        knows_all(ranking, a@),
        knows_all(ranking, b@),
        in_order(ranking, a@),
        in_order(ranking, b@),
    ensures
        in_order(ranking, result@),
        result@.to_multiset() == a@.to_multiset().add(b@.to_multiset()),
        knows_all(ranking, result@),
{
    broadcast use vstd::seq_lib::group_to_multiset_ensures;

    let mut result: Vec<usize> = Vec::new();
    let mut i: usize = 0;
    let mut j: usize = 0;
    proof {
        assert(a@.take(0) =~= Seq::<usize>::empty());
        assert(b@.take(0) =~= Seq::<usize>::empty());
        assert(result@ =~= Seq::<usize>::empty());
        assert(result@.to_multiset() =~= a@.take(0).to_multiset().add(b@.take(0).to_multiset()));
    }
    while i < a.len() || j < b.len()
        invariant
            i <= a.len(),
            j <= b.len(),
            knows_all(ranking, a@),
            knows_all(ranking, b@),
            in_order(ranking, a@),
            in_order(ranking, b@),
            in_order(ranking, result@),
            knows_all(ranking, result@),
            result@.to_multiset() == a@.take(i as int).to_multiset().add(
                b@.take(j as int).to_multiset(),
            ),
            forall|p: int, q: int|
                0 <= p < result@.len() && i <= q < a@.len() ==> ranking.at_most(
                    result@[p],
                    a@[q],
                ),
            forall|p: int, q: int|
                0 <= p < result@.len() && j <= q < b@.len() ==> ranking.at_most(
                    result@[p],
                    b@[q],
                ),
        decreases a.len() - i + b.len() - j,
    {
        let ghost before = result@;
        let take_a = if i >= a.len() {
            false
        } else if j >= b.len() {
            true
        } else {
            ranking.is_at_most(a[i], b[j])
        };
        if take_a {
            let ghost x = a@[i as int];
            result.push(a[i]);
            proof {
                assert(a@.take(i + 1) =~= a@.take(i as int).push(x));
                lemma_push(a@.take(i as int), x);
                lemma_push(before, x);
                assert(result@.to_multiset() =~= a@.take(i + 1).to_multiset().add(
                    b@.take(j as int).to_multiset(),
                ));
                lemma_merge_step(ranking, before, x, a@, i + 1, b@, j as int);
            }
            i += 1;
        } else {
            let ghost x = b@[j as int];
            result.push(b[j]);
            proof {
                if i < a@.len() {
                    ranking.total(a@[i as int], x);
                }
                assert(b@.take(j + 1) =~= b@.take(j as int).push(x));
                lemma_push(b@.take(j as int), x);
                lemma_push(before, x);
                assert(result@.to_multiset() =~= a@.take(i as int).to_multiset().add(
                    b@.take(j + 1).to_multiset(),
                ));
                lemma_merge_step(ranking, before, x, b@, j + 1, a@, i as int);
            }
            j += 1;
        }
    }
    proof {
        assert(a@.take(i as int) =~= a@);
        assert(b@.take(j as int) =~= b@);
    }
    result
}

/// Taking the head of one list, which is at most the head of the other, keeps the
/// order.
proof fn lemma_merge_step<R: Ranking>(
    ranking: &R,
    done: Seq<usize>,
    x: usize,
    own: Seq<usize>,
    next: int,
    other: Seq<usize>,
    at: int,
)
    requires
        1 <= next <= own.len(),
        own[next - 1] == x,
        0 <= at <= other.len(),
        knows_all(ranking, own),
        knows_all(ranking, other),
        knows_all(ranking, done),
        in_order(ranking, own),
        in_order(ranking, other),
        in_order(ranking, done),
        at < other.len() ==> ranking.at_most(x, other[at]),
        forall|p: int, q: int|
            0 <= p < done.len() && next - 1 <= q < own.len() ==> ranking.at_most(done[p], own[q]),
        forall|p: int, q: int|
            0 <= p < done.len() && at <= q < other.len() ==> ranking.at_most(done[p], other[q]),
    ensures
        in_order(ranking, done.push(x)),
        knows_all(ranking, done.push(x)),
        forall|p: int, q: int|
            0 <= p < done.push(x).len() && next <= q < own.len() ==> ranking.at_most(
                done.push(x)[p],
                own[q],
            ),
        forall|p: int, q: int|
            0 <= p < done.push(x).len() && at <= q < other.len() ==> ranking.at_most(
                done.push(x)[p],
                other[q],
            ),
{
    let all = done.push(x);
    assert forall|p: int, q: int| 0 <= p < q < all.len() implies ranking.at_most(
        all[p],
        all[q],
    ) by {
        if q == all.len() - 1 {
            assert(ranking.at_most(done[p], own[next - 1]));
        } else {
            assert(ranking.at_most(done[p], done[q]));
        }
    }
    assert forall|p: int, q: int| 0 <= p < all.len() && at <= q < other.len() implies ranking.at_most(
        all[p],
        other[q],
    ) by {
        if p == all.len() - 1 {
            if q > at {
                assert(ranking.at_most(other[at], other[q]));
                ranking.transitive(x, other[at], other[q]);
            }
        } else {
            assert(ranking.at_most(done[p], other[q]));
        }
    }
    assert forall|p: int, q: int| 0 <= p < all.len() && next <= q < own.len() implies ranking.at_most(
        all[p],
        own[q],
    ) by {
        if p == all.len() - 1 {
            assert(ranking.at_most(own[next - 1], own[q]));
        } else {
            assert(ranking.at_most(done[p], own[q]));
        }
    }
    assert forall|p: int| 0 <= p < all.len() implies ranking.knows(#[trigger] all[p]) by {
        if p == all.len() - 1 {
            assert(ranking.knows(own[next - 1]));
        } else {
            assert(ranking.knows(done[p]));
        }
    }
}

/// The things in order.
pub fn ordered<R: Ranking>(ranking: &R, things: &[usize]) -> (result: Vec<usize>)
    requires
        knows_all(ranking, things@),
    ensures
        in_order(ranking, result@),
        result@.to_multiset() == things@.to_multiset(),
        knows_all(ranking, result@),
    decreases things.len(),
{
    broadcast use vstd::seq_lib::group_to_multiset_ensures;

    if things.len() <= 1 {
        return slice_to_vec(things);
    }
    let half: usize = things.len() / 2;
    let left = slice_subrange(things, 0, half);
    let right = slice_subrange(things, half, things.len());
    proof {
        assert(things@ =~= left@ + right@);
        vstd::seq_lib::lemma_multiset_commutative(left@, right@);
        assert forall|i: int| 0 <= i < left@.len() implies ranking.knows(#[trigger] left@[i]) by {
            assert(left@[i] == things@[i]);
        }
        assert forall|i: int| 0 <= i < right@.len() implies ranking.knows(#[trigger] right@[i]) by {
            assert(right@[i] == things@[i + half]);
        }
    }
    let a = ordered(ranking, left);
    let b = ordered(ranking, right);
    merged(ranking, &a, &b)
}

} // verus!
