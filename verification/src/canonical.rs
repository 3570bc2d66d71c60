//! Canonical ordering of byte strings. Content identities of aggregates hash
//! their members in sorted order, so that the identity does not depend on the
//! order in which members were added; this module supplies the order, the
//! sorting routine, and the lemmas that make "same members, same identity"
//! provable.

use vstd::prelude::*;
use vstd::multiset::Multiset;
use vstd::relations::{sorted_by, total_ordering};
use vstd::seq_lib::lemma_sorted_unique;

verus! {

/// Lexicographic order on byte strings; a proper prefix comes first.
pub open spec fn lex_le(a: Seq<u8>, b: Seq<u8>) -> bool
    decreases a.len(),
{
    if a.len() == 0 {
        true
    } else if b.len() == 0 {
        false
    } else if a[0] < b[0] {
        true
    } else if a[0] > b[0] {
        false
    } else {
        lex_le(a.drop_first(), b.drop_first())
    }
}

/// The lexicographic order as a first-class relation.
pub open spec fn lex_ord() -> spec_fn(Seq<u8>, Seq<u8>) -> bool {
    |a: Seq<u8>, b: Seq<u8>| lex_le(a, b)
}

proof fn lemma_lex_le_refl(a: Seq<u8>)
    ensures
        lex_le(a, a),
    decreases a.len(),
{
    if a.len() != 0 {
        lemma_lex_le_refl(a.drop_first());
    }
}

proof fn lemma_lex_le_antisymmetric(a: Seq<u8>, b: Seq<u8>)
    requires
        lex_le(a, b),
        lex_le(b, a),
    ensures
        a == b,
    decreases a.len(),
{
    if a.len() == 0 {
        assert(b.len() == 0);
        assert(a =~= b);
    } else {
        assert(a[0] == b[0]);
        lemma_lex_le_antisymmetric(a.drop_first(), b.drop_first());
        assert(a =~= seq![a[0]] + a.drop_first());
        assert(b =~= seq![b[0]] + b.drop_first());
    }
}

proof fn lemma_lex_le_transitive(a: Seq<u8>, b: Seq<u8>, c: Seq<u8>)
    requires
        lex_le(a, b),
        lex_le(b, c),
    ensures
        lex_le(a, c),
    decreases a.len(),
{
    if a.len() != 0 && b.len() != 0 && c.len() != 0 {
        if a[0] == b[0] && b[0] == c[0] {
            lemma_lex_le_transitive(a.drop_first(), b.drop_first(), c.drop_first());
        }
    }
}

proof fn lemma_lex_le_connected(a: Seq<u8>, b: Seq<u8>)
    ensures
        lex_le(a, b) || lex_le(b, a),
    decreases a.len(),
{
    if a.len() != 0 && b.len() != 0 && a[0] == b[0] {
        lemma_lex_le_connected(a.drop_first(), b.drop_first());
    }
}

/// The lexicographic order is a total order, so sorting under it gives every
/// multiset of byte strings one canonical arrangement.
pub proof fn lemma_lex_ord_total()
    ensures
        total_ordering(lex_ord()),
{
    assert forall|a: Seq<u8>| #[trigger] lex_ord()(a, a) by {
        lemma_lex_le_refl(a);
    }
    assert forall|a: Seq<u8>, b: Seq<u8>|
        #[trigger] lex_ord()(a, b) && #[trigger] lex_ord()(b, a) implies a == b by {
        lemma_lex_le_antisymmetric(a, b);
    }
    assert forall|a: Seq<u8>, b: Seq<u8>, c: Seq<u8>|
        #[trigger] lex_ord()(a, b) && #[trigger] lex_ord()(b, c) implies lex_ord()(a, c) by {
        lemma_lex_le_transitive(a, b, c);
    }
    assert forall|a: Seq<u8>, b: Seq<u8>| #[trigger] lex_ord()(a, b) || #[trigger] lex_ord()(
        b,
        a,
    ) by {
        lemma_lex_le_connected(a, b);
    }
}

/// The byte strings a vector of chunks holds.
pub open spec fn chunk_views(s: Seq<Vec<u8>>) -> Seq<Seq<u8>> {
    s.map_values(|x: Vec<u8>| x@)
}

fn lex_le_from(a: &Vec<u8>, b: &Vec<u8>, i: usize) -> (r: bool)
    requires
        i <= a@.len(),
        i <= b@.len(),
    ensures
        r == lex_le(a@.skip(i as int), b@.skip(i as int)),
    decreases a@.len() - i,
{
    proof {
        if i < a@.len() {
            assert(a@.skip(i as int)[0] == a@[i as int]);
        }
        if i < b@.len() {
            assert(b@.skip(i as int)[0] == b@[i as int]);
        }
    }
    if i == a.len() {
        true
    } else if i == b.len() {
        false
    } else if a[i] < b[i] {
        true
    } else if a[i] > b[i] {
        false
    } else {
        proof {
            assert(a@.skip(i as int).drop_first() =~= a@.skip(i + 1));
            assert(b@.skip(i as int).drop_first() =~= b@.skip(i + 1));
        }
        lex_le_from(a, b, i + 1)
    }
}

/// Decide the lexicographic order on two byte strings.
pub fn lex_le_bytes(a: &Vec<u8>, b: &Vec<u8>) -> (r: bool)
    ensures
        r == lex_le(a@, b@),
{
    proof {
        assert(a@.skip(0) =~= a@);
        assert(b@.skip(0) =~= b@);
    }
    lex_le_from(a, b, 0)
}

/// Sort byte strings into the canonical (lexicographic) arrangement.
/// The result holds exactly the input strings, in sorted order.
pub fn sort_chunks(chunks: Vec<Vec<u8>>) -> (r: Vec<Vec<u8>>)
    ensures
        sorted_by(chunk_views(r@), lex_ord()),
        chunk_views(r@).to_multiset() == chunk_views(chunks@).to_multiset(),
{
    broadcast use vstd::seq_lib::group_to_multiset_ensures;
    broadcast use vstd::multiset::group_multiset_axioms;

    let mut rest = chunks;
    let mut out: Vec<Vec<u8>> = Vec::new();
    proof {
        lemma_lex_ord_total();
        assert(chunk_views(out@) =~= Seq::<Seq<u8>>::empty());
        assert(chunk_views(out@).to_multiset().add(chunk_views(rest@).to_multiset()) =~= chunk_views(
            rest@,
        ).to_multiset());
    }
    while rest.len() != 0
        invariant
            sorted_by(chunk_views(out@), lex_ord()),
            chunk_views(out@).to_multiset().add(chunk_views(rest@).to_multiset())
                == chunk_views(chunks@).to_multiset(),
        decreases rest@.len(),
    {
        let ghost old_out = chunk_views(out@).to_multiset();
        let ghost old_rest_views = chunk_views(rest@);
        let x = rest.pop().unwrap();
        proof {
            assert(old_rest_views =~= chunk_views(rest@).push(x@));
            vstd::seq_lib::to_multiset_build(chunk_views(rest@), x@);
            assert(old_rest_views.to_multiset() == chunk_views(rest@).to_multiset().insert(x@));
            assert(old_out.add(chunk_views(rest@).to_multiset().insert(x@)) =~= old_out.insert(
                x@,
            ).add(chunk_views(rest@).to_multiset()));
        }
        insert_sorted(&mut out, x);
    }
    proof {
        assert(chunk_views(rest@) =~= Seq::<Seq<u8>>::empty());
        assert(chunk_views(rest@).to_multiset() =~= Multiset::<Seq<u8>>::empty());
        assert(chunk_views(out@).to_multiset().add(Multiset::<Seq<u8>>::empty()) =~= chunk_views(
            out@,
        ).to_multiset());
    }
    out
}

/// Insert one byte string into a sorted vector, keeping it sorted.
fn insert_sorted(out: &mut Vec<Vec<u8>>, x: Vec<u8>)
    requires
        sorted_by(chunk_views(old(out)@), lex_ord()),
    ensures
        sorted_by(chunk_views(final(out)@), lex_ord()),
        chunk_views(final(out)@).to_multiset() == chunk_views(old(out)@).to_multiset().insert(x@),
{
    broadcast use vstd::seq_lib::to_multiset_insert;

    let j = find_insert_pos(out, &x);
    proof {
        let before = chunk_views(out@);
        let after = before.insert(j as int, x@);
        assert forall|p: int, q: int| 0 <= p < q < after.len() implies #[trigger] lex_ord()(
            after[p],
            after[q],
        ) by {
            if q == j {
                assert(after[q] == x@);
                assert(after[p] == before[p]);
                assert(lex_le(before[p], x@));
            } else if p == j {
                assert(after[p] == x@);
                assert(after[q] == before[q - 1]);
                assert(!lex_le(before[j as int], x@));
                lemma_lex_le_connected(before[j as int], x@);
                if q - 1 > j {
                    assert(lex_ord()(before[j as int], before[q - 1]));
                    lemma_lex_le_transitive(x@, before[j as int], before[q - 1]);
                }
            } else if p < j && q > j {
                assert(after[p] == before[p]);
                assert(after[q] == before[q - 1]);
                assert(lex_ord()(before[p], before[q - 1]));
            } else if p > j {
                assert(after[p] == before[p - 1]);
                assert(after[q] == before[q - 1]);
                assert(lex_ord()(before[p - 1], before[q - 1]));
            } else {
                assert(after[p] == before[p]);
                assert(after[q] == before[q]);
                assert(lex_ord()(before[p], before[q]));
            }
        }
        assert(chunk_views(out@.insert(j as int, x)) =~= after);
    }
    out.insert(j, x);
}

/// The first position whose element does not come before `x`; inserting `x`
/// there keeps a sorted vector sorted.
fn find_insert_pos(out: &Vec<Vec<u8>>, x: &Vec<u8>) -> (j: usize)
    ensures
        j <= out@.len(),
        forall|k: int| 0 <= k < j ==> lex_le(chunk_views(out@)[k], x@),
        j < out@.len() ==> !lex_le(chunk_views(out@)[j as int], x@),
{
    let n = out.len();
    let mut j: usize = 0;
    while j < n
        invariant
            n == out@.len(),
            j <= n,
            forall|k: int| 0 <= k < j ==> lex_le(chunk_views(out@)[k], x@),
        decreases n - j,
    {
        if !lex_le_bytes(&out[j], x) {
            return j;
        }
        proof {
            assert(chunk_views(out@)[j as int] == out@[j as int]@);
        }
        j += 1;
    }
    j
}

/// Concatenate byte-string chunks in order.
pub fn concat_chunks(chunks: &Vec<Vec<u8>>) -> (r: Vec<u8>)
    ensures
        r@ == chunk_views(chunks@).flatten(),
{
    broadcast use vstd::seq_lib::group_seq_properties;

    let n = chunks.len();
    let mut out: Vec<u8> = Vec::new();
    proof {
        assert(chunk_views(chunks@.take(0)) =~= Seq::<Seq<u8>>::empty());
        assert(out@ =~= chunk_views(chunks@.take(0)).flatten());
    }
    let mut i: usize = 0;
    while i < n
        invariant
            n == chunks@.len(),
            i <= n,
            out@ == chunk_views(chunks@.take(i as int)).flatten(),
        decreases n - i,
    {
        let mut piece = vstd::slice::slice_to_vec(chunks[i].as_slice());
        proof {
            assert(chunk_views(chunks@.take(i + 1)) =~= chunk_views(chunks@.take(i as int)).push(
                chunks@[i as int]@,
            ));
            chunk_views(chunks@.take(i as int)).lemma_flatten_push(chunks@[i as int]@);
        }
        out.append(&mut piece);
        i += 1;
    }
    proof {
        assert(chunks@.take(n as int) =~= chunks@);
    }
    out
}

/// The canonical arrangement of a collection of byte strings: sorted under
/// the lexicographic order. Two collections holding the same strings have
/// the same canonical arrangement, whatever order they were gathered in.
pub open spec fn canonical_arrangement(s: Seq<Seq<u8>>) -> Seq<Seq<u8>> {
    s.sort_by(lex_ord())
}

/// Sort chunks into the canonical arrangement and concatenate them.
pub fn canonical_bytes(chunks: Vec<Vec<u8>>) -> (r: Vec<u8>)
    ensures
        r@ == canonical_arrangement(chunk_views(chunks@)).flatten(),
{
    let ghost views = chunk_views(chunks@);
    let sorted = sort_chunks(chunks);
    proof {
        lemma_lex_ord_total();
        views.lemma_sort_by_ensures(lex_ord());
        lemma_sorted_unique(chunk_views(sorted@), views.sort_by(lex_ord()), lex_ord());
    }
    concat_chunks(&sorted)
}

/// Collections holding the same multiset of byte strings have the same
/// canonical arrangement.
pub proof fn lemma_canonical_arrangement_of_multiset(a: Seq<Seq<u8>>, b: Seq<Seq<u8>>)
    requires
        a.to_multiset() == b.to_multiset(),
    ensures
        canonical_arrangement(a) == canonical_arrangement(b),
{
    lemma_lex_ord_total();
    a.lemma_sort_by_ensures(lex_ord());
    b.lemma_sort_by_ensures(lex_ord());
    lemma_sorted_unique(a.sort_by(lex_ord()), b.sort_by(lex_ord()), lex_ord());
}

} // verus!
