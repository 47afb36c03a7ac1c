//! The canonical order of interactions: by block height, ties broken by
//! block id, then by transaction id, each id compared lexicographically.
//! The replay applies interactions in exactly this order.

use vstd::prelude::*;
use vstd::string::StrSliceExecFns;
use crate::interaction::InteractionNode;

verus! {

/// Strict lexicographic order on character sequences, by code point.
pub open spec fn lex_lt(a: Seq<char>, b: Seq<char>) -> bool
    decreases a.len(),
{
    if b.len() == 0 {
        false
    } else if a.len() == 0 {
        true
    } else if a[0] != b[0] {
        a[0] < b[0]
    } else {
        lex_lt(a.drop_first(), b.drop_first())
    }
}

/// The canonical strict order on interactions.
pub open spec fn key_lt(a: InteractionNode, b: InteractionNode) -> bool {
    a.block.height < b.block.height || (a.block.height == b.block.height && lex_lt(
        a.block.id@,
        b.block.id@,
    )) || (a.block.height == b.block.height && a.block.id@ == b.block.id@ && lex_lt(a.id@, b.id@))
}

/// Two interactions carry the same sort key.
pub open spec fn key_eq(a: InteractionNode, b: InteractionNode) -> bool {
    a.block.height == b.block.height && a.block.id@ == b.block.id@ && a.id@ == b.id@
}

pub open spec fn key_le(a: InteractionNode, b: InteractionNode) -> bool {
    key_lt(a, b) || key_eq(a, b)
}

/// A sequence is sorted in the canonical order.
pub open spec fn sorted(s: Seq<InteractionNode>) -> bool {
    forall|i: int, j: int| 0 <= i < j < s.len() ==> key_le(s[i], s[j])
}

/// Exactly one of `lex_lt(a, b)`, `lex_lt(b, a)`, `a == b` holds.
proof fn lemma_lex_connex(a: Seq<char>, b: Seq<char>)
    ensures
        lex_lt(a, b) || lex_lt(b, a) || a == b,
    decreases a.len(),
{
    if a.len() == 0 && b.len() == 0 {
        assert(a =~= b);
    } else if a.len() != 0 && b.len() != 0 {
        if a[0] == b[0] {
            lemma_lex_connex(a.drop_first(), b.drop_first());
            if a.drop_first() == b.drop_first() {
                assert(a.drop_first().len() == a.len() - 1);
                assert(b.drop_first().len() == b.len() - 1);
                assert(a.len() == b.len());
                assert(a[0] == b[0]);
                assert forall|i: int| 1 <= i < a.len() implies a[i] == b[i] by {
                    assert(a.drop_first()[i - 1] == a[i]);
                    assert(b.drop_first()[i - 1] == b[i]);
                }
                assert(a =~= b);
            }
        }
    }
}

proof fn lemma_lex_asym(a: Seq<char>, b: Seq<char>)
    requires
        lex_lt(a, b),
    ensures
        !lex_lt(b, a),
        a != b,
    decreases a.len(),
{
    if a.len() != 0 && b.len() != 0 && a[0] == b[0] {
        lemma_lex_asym(a.drop_first(), b.drop_first());
        assert(a != b) by {
            if a == b {
                assert(a.drop_first() =~= b.drop_first());
            }
        }
    } else if a.len() == 0 {
        assert(a != b) by {
            if a == b {
                assert(b.len() == 0);
            }
        }
    }
}

proof fn lemma_lex_trans(a: Seq<char>, b: Seq<char>, c: Seq<char>)
    requires
        lex_lt(a, b),
        lex_lt(b, c),
    ensures
        lex_lt(a, c),
    decreases a.len(),
{
    if a.len() != 0 && b.len() != 0 && c.len() != 0 {
        if a[0] == b[0] && b[0] == c[0] {
            lemma_lex_trans(a.drop_first(), b.drop_first(), c.drop_first());
        }
    }
}

/// The canonical order is total: any two interactions compare.
pub proof fn lemma_key_connex(a: InteractionNode, b: InteractionNode)
    ensures
        key_lt(a, b) || key_lt(b, a) || key_eq(a, b),
{
    lemma_lex_connex(a.block.id@, b.block.id@);
    lemma_lex_connex(a.id@, b.id@);
}

pub proof fn lemma_key_asym(a: InteractionNode, b: InteractionNode)
    requires
        key_lt(a, b),
    ensures
        !key_lt(b, a),
        !key_eq(a, b),
{
    if a.block.height == b.block.height {
        if lex_lt(a.block.id@, b.block.id@) {
            lemma_lex_asym(a.block.id@, b.block.id@);
        } else {
            lemma_lex_asym(a.id@, b.id@);
        }
    }
}

/// `key_lt` composes with `key_le` on the right.
pub proof fn lemma_key_lt_le_trans(a: InteractionNode, b: InteractionNode, c: InteractionNode)
    requires
        key_lt(a, b),
        key_le(b, c),
    ensures
        key_lt(a, c),
{
    if key_eq(b, c) {
    } else {
        if a.block.height == b.block.height && b.block.height == c.block.height {
            if lex_lt(a.block.id@, b.block.id@) && lex_lt(b.block.id@, c.block.id@) {
                lemma_lex_trans(a.block.id@, b.block.id@, c.block.id@);
            } else if a.block.id@ == b.block.id@ && b.block.id@ == c.block.id@ {
                lemma_lex_trans(a.id@, b.id@, c.id@);
            }
        }
    }
}

/// Insert `x` into `s` before the first element strictly greater than it;
/// among equal keys the new element goes last, which makes the sort stable.
pub open spec fn insert_sorted(x: InteractionNode, s: Seq<InteractionNode>) -> Seq<InteractionNode>
    decreases s.len(),
{
    if s.len() == 0 {
        seq![x]
    } else if key_lt(x, s[0]) {
        seq![x] + s
    } else {
        seq![s[0]] + insert_sorted(x, s.drop_first())
    }
}

/// The canonical sorted arrangement of a list of interactions: a stable
/// insertion sort over the canonical order.
pub open spec fn sort_spec(s: Seq<InteractionNode>) -> Seq<InteractionNode>
    decreases s.len(),
{
    if s.len() == 0 {
        Seq::empty()
    } else {
        insert_sorted(s.last(), sort_spec(s.drop_last()))
    }
}

/// Where the insertion lands: if `x` is not below the first `p` elements and
/// (unless it runs past the end) is below the one at `p`, it lands at `p`.
proof fn lemma_insert_sorted_split(x: InteractionNode, s: Seq<InteractionNode>, p: int)
    requires
        0 <= p <= s.len(),
        forall|q: int| 0 <= q < p ==> !key_lt(x, #[trigger] s[q]),
        p < s.len() ==> key_lt(x, s[p]),
    ensures
        insert_sorted(x, s) == s.take(p) + seq![x] + s.skip(p),
    decreases p,
{
    if p == 0 {
        assert(insert_sorted(x, s) =~= s.take(0) + seq![x] + s.skip(0));
    } else {
        lemma_insert_sorted_split(x, s.drop_first(), p - 1);
        assert(insert_sorted(x, s) == seq![s[0]] + insert_sorted(x, s.drop_first()));
        assert(seq![s[0]] + (s.drop_first().take(p - 1) + seq![x] + s.drop_first().skip(p - 1))
            =~= s.take(p) + seq![x] + s.skip(p));
    }
}

proof fn lemma_insert_sorted_len(x: InteractionNode, s: Seq<InteractionNode>)
    ensures
        insert_sorted(x, s).len() == s.len() + 1,
    decreases s.len(),
{
    if s.len() != 0 && !key_lt(x, s[0]) {
        lemma_insert_sorted_len(x, s.drop_first());
    }
}

proof fn lemma_insert_sorted_multiset(x: InteractionNode, s: Seq<InteractionNode>)
    ensures
        insert_sorted(x, s).to_multiset() == s.to_multiset().insert(x),
    decreases s.len(),
{
    broadcast use vstd::seq_lib::group_to_multiset_ensures;

    if s.len() == 0 {
        assert(seq![x] =~= Seq::<InteractionNode>::empty().push(x));
        assert(insert_sorted(x, s).to_multiset() =~= s.to_multiset().insert(x));
    } else if key_lt(x, s[0]) {
        assert(seq![x] + s =~= s.insert(0, x));
        vstd::seq_lib::to_multiset_insert(s, 0, x);
        assert(insert_sorted(x, s).to_multiset() =~= s.to_multiset().insert(x));
    } else {
        lemma_insert_sorted_multiset(x, s.drop_first());
        let rest = insert_sorted(x, s.drop_first());
        assert(seq![s[0]] + rest =~= rest.insert(0, s[0]));
        vstd::seq_lib::to_multiset_insert(rest, 0, s[0]);
        assert(s =~= s.drop_first().insert(0, s[0]));
        vstd::seq_lib::to_multiset_insert(s.drop_first(), 0, s[0]);
        assert(insert_sorted(x, s).to_multiset() =~= s.to_multiset().insert(x)) by {
            assert(rest.to_multiset() == s.drop_first().to_multiset().insert(x));
            assert((seq![s[0]] + rest).to_multiset() == rest.to_multiset().insert(s[0]));
            assert(s.to_multiset() == s.drop_first().to_multiset().insert(s[0]));
            assert(s.drop_first().to_multiset().insert(x).insert(s[0]) =~= s.drop_first()
                .to_multiset()
                .insert(s[0])
                .insert(x));
        }
    }
}

proof fn lemma_insert_sorted_sorted(x: InteractionNode, s: Seq<InteractionNode>)
    requires
        sorted(s),
    ensures
        sorted(insert_sorted(x, s)),
    decreases s.len(),
{
    if s.len() == 0 {
    } else if key_lt(x, s[0]) {
        let r = seq![x] + s;
        assert forall|i: int, j: int| 0 <= i < j < r.len() implies key_le(r[i], r[j]) by {
            if i == 0 {
                if j == 1 {
                } else {
                    lemma_key_lt_le_trans(x, s[0], s[j - 1]);
                }
            }
        }
    } else {
        assert(sorted(s.drop_first()));
        lemma_insert_sorted_sorted(x, s.drop_first());
        lemma_key_connex(x, s[0]);
        let rest = insert_sorted(x, s.drop_first());
        lemma_insert_sorted_len(x, s.drop_first());
        let r = seq![s[0]] + rest;
        assert forall|i: int, j: int| 0 <= i < j < r.len() implies key_le(r[i], r[j]) by {
            if i == 0 {
                // every element of rest is either x or an element of s
                lemma_insert_sorted_elem(x, s.drop_first(), j - 1);
                if rest[j - 1] == x {
                } else {
                    let q = choose|q: int|
                        0 <= q < s.drop_first().len() && s.drop_first()[q] == rest[j - 1];
                    assert(key_le(s[0], s[q + 1]));
                }
            }
        }
    }
}

/// Every element of `insert_sorted(x, s)` is `x` or an element of `s`.
proof fn lemma_insert_sorted_elem(x: InteractionNode, s: Seq<InteractionNode>, i: int)
    requires
        0 <= i < insert_sorted(x, s).len(),
    ensures
        insert_sorted(x, s)[i] == x || exists|q: int|
            0 <= q < s.len() && s[q] == insert_sorted(x, s)[i],
    decreases s.len(),
{
    if s.len() == 0 {
    } else if key_lt(x, s[0]) {
        if i > 0 {
            assert(s[i - 1] == insert_sorted(x, s)[i]);
        }
    } else {
        if i == 0 {
            assert(s[0] == insert_sorted(x, s)[0]);
        } else {
            lemma_insert_sorted_elem(x, s.drop_first(), i - 1);
            if insert_sorted(x, s.drop_first())[i - 1] != x {
                let q = choose|q: int|
                    0 <= q < s.drop_first().len() && s.drop_first()[q] == insert_sorted(
                        x,
                        s.drop_first(),
                    )[i - 1];
                assert(s[q + 1] == insert_sorted(x, s)[i]);
            }
        }
    }
}

/// The canonical arrangement is sorted and permutes its input.
pub proof fn lemma_sort_spec_props(s: Seq<InteractionNode>)
    ensures
        sorted(sort_spec(s)),
        sort_spec(s).to_multiset() == s.to_multiset(),
        sort_spec(s).len() == s.len(),
    decreases s.len(),
{
    broadcast use vstd::seq_lib::group_to_multiset_ensures;

    if s.len() != 0 {
        lemma_sort_spec_props(s.drop_last());
        lemma_insert_sorted_sorted(s.last(), sort_spec(s.drop_last()));
        lemma_insert_sorted_multiset(s.last(), sort_spec(s.drop_last()));
        lemma_insert_sorted_len(s.last(), sort_spec(s.drop_last()));
        assert(s =~= s.drop_last().push(s.last()));
        assert(s.drop_last().push(s.last()).to_multiset() == s.drop_last().to_multiset().insert(
            s.last(),
        ));
    }
}

/// Sorting a list that is already in canonical order returns it unchanged.
pub proof fn lemma_sort_spec_idempotent(s: Seq<InteractionNode>)
    requires
        sorted(s),
    ensures
        sort_spec(s) == s,
    decreases s.len(),
{
    if s.len() != 0 {
        assert(sorted(s.drop_last()));
        lemma_sort_spec_idempotent(s.drop_last());
        let prefix = s.drop_last();
        assert forall|q: int| 0 <= q < prefix.len() implies !key_lt(s.last(), #[trigger] prefix[q]) by {
            assert(key_le(s[q], s[s.len() - 1]));
            if key_lt(s.last(), prefix[q]) {
                if key_eq(s[q], s.last()) {
                    lemma_key_asym(s.last(), prefix[q]);
                } else {
                    lemma_key_lt_le_trans(s.last(), s[q], s.last());
                    lemma_key_asym(s.last(), s.last());
                }
            }
        }
        lemma_insert_sorted_split(s.last(), prefix, prefix.len() as int);
        assert(prefix.take(prefix.len() as int) + seq![s.last()] + prefix.skip(prefix.len() as int)
            =~= s);
    }
}

/// No two interactions carry the same sort key; in particular there are no
/// duplicate interactions.  A ledger guarantees this: transaction ids are
/// unique.
pub open spec fn distinct_keys(s: Seq<InteractionNode>) -> bool {
    forall|i: int, j: int| 0 <= i < j < s.len() ==> !key_eq(s[i], s[j])
}

pub proof fn lemma_key_le_antisym(a: InteractionNode, b: InteractionNode)
    requires
        key_le(a, b),
        key_le(b, a),
    ensures
        key_eq(a, b),
{
    if key_lt(a, b) {
        lemma_key_asym(a, b);
    }
}

/// Two sorted arrangements of the same interactions are identical when no
/// two interactions share a sort key.
proof fn lemma_sorted_unique(s1: Seq<InteractionNode>, s2: Seq<InteractionNode>)
    requires
        sorted(s1),
        sorted(s2),
        s1.to_multiset() == s2.to_multiset(),
        distinct_keys(s1),
    ensures
        s1 == s2,
    decreases s1.len(),
{
    broadcast use vstd::seq_lib::group_to_multiset_ensures;

    if s1.len() == 0 {
        assert(s2.to_multiset().len() == 0);
        assert(s1 =~= s2);
    } else {
        assert(s1.contains(s1[0]));
        assert(s1.to_multiset().count(s1[0]) > 0);
        assert(s2.to_multiset().count(s1[0]) > 0);
        assert(s2.contains(s1[0]));
        let j = choose|j: int| 0 <= j < s2.len() && s2[j] == s1[0];
        assert(s1.contains(s2[0])) by {
            assert(s2.contains(s2[0]));
            assert(s2.to_multiset().count(s2[0]) > 0);
            assert(s1.to_multiset().count(s2[0]) > 0);
        }
        let m = choose|m: int| 0 <= m < s1.len() && s1[m] == s2[0];
        assert(key_le(s1[0], s2[0])) by {
            if m != 0 {
                assert(key_le(s1[0], s1[m]));
            }
        }
        assert(key_le(s2[0], s1[0])) by {
            if j != 0 {
                assert(key_le(s2[0], s2[j]));
            }
        }
        lemma_key_le_antisym(s1[0], s2[0]);
        assert(s1[0] == s2[0]) by {
            if m != 0 {
                assert(key_eq(s1[0], s1[m]));
                assert(false);
            }
        }
        assert(s1.drop_first().to_multiset() == s2.drop_first().to_multiset()) by {
            assert(s1.remove(0) =~= s1.drop_first());
            assert(s2.remove(0) =~= s2.drop_first());
            assert(s1.remove(0).to_multiset() == s1.to_multiset().remove(s1[0]));
            assert(s2.remove(0).to_multiset() == s2.to_multiset().remove(s2[0]));
        }
        assert(sorted(s1.drop_first())) by {
            assert forall|p: int, q: int|
                0 <= p < q < s1.drop_first().len() implies key_le(
                s1.drop_first()[p],
                s1.drop_first()[q],
            ) by {
                assert(s1.drop_first()[p] == s1[p + 1]);
                assert(s1.drop_first()[q] == s1[q + 1]);
            }
        }
        assert(sorted(s2.drop_first())) by {
            assert forall|p: int, q: int|
                0 <= p < q < s2.drop_first().len() implies key_le(
                s2.drop_first()[p],
                s2.drop_first()[q],
            ) by {
                assert(s2.drop_first()[p] == s2[p + 1]);
                assert(s2.drop_first()[q] == s2[q + 1]);
            }
        }
        assert(distinct_keys(s1.drop_first())) by {
            assert forall|p: int, q: int|
                0 <= p < q < s1.drop_first().len() implies !key_eq(
                s1.drop_first()[p],
                s1.drop_first()[q],
            ) by {
                assert(s1.drop_first()[p] == s1[p + 1]);
                assert(s1.drop_first()[q] == s1[q + 1]);
            }
        }
        lemma_sorted_unique(s1.drop_first(), s2.drop_first());
        assert forall|i: int| 0 <= i < s1.len() implies s1[i] == s2[i] by {
            if i > 0 {
                assert(s1.drop_first()[i - 1] == s2.drop_first()[i - 1]);
            }
        }
        assert(s1 =~= s2);
    }
}

/// Distinct sort keys carry over to any rearrangement of the same
/// interactions.
proof fn lemma_distinct_keys_permute(s: Seq<InteractionNode>, t: Seq<InteractionNode>)
    requires
        s.to_multiset() == t.to_multiset(),
        distinct_keys(s),
    ensures
        distinct_keys(t),
{
    broadcast use vstd::seq_lib::group_to_multiset_ensures;

    assert(s.no_duplicates()) by {
        assert forall|i: int, j: int|
            0 <= i < s.len() && 0 <= j < s.len() && i != j implies s[i] != s[j] by {
            if s[i] == s[j] {
                if i < j {
                    assert(!key_eq(s[i], s[j]));
                } else {
                    assert(!key_eq(s[j], s[i]));
                }
            }
        }
    }
    s.lemma_multiset_has_no_duplicates();
    t.lemma_multiset_has_no_duplicates_conv();
    assert forall|i: int, j: int| 0 <= i < j < t.len() implies !key_eq(t[i], t[j]) by {
        if key_eq(t[i], t[j]) {
            assert(t[i] != t[j]);
            assert(t.contains(t[i]));
            assert(t.contains(t[j]));
            assert(t.to_multiset().count(t[i]) > 0);
            assert(t.to_multiset().count(t[j]) > 0);
            assert(s.to_multiset().count(t[i]) > 0);
            assert(s.to_multiset().count(t[j]) > 0);
            assert(s.contains(t[i]));
            assert(s.contains(t[j]));
            let a = choose|a: int| 0 <= a < s.len() && s[a] == t[i];
            let b = choose|b: int| 0 <= b < s.len() && s[b] == t[j];
            if a < b {
                assert(!key_eq(s[a], s[b]));
            } else {
                assert(!key_eq(s[b], s[a]));
            }
        }
    }
}

/// Permuting the interaction list before the engine sorts it does not
/// change the canonical arrangement, provided no two interactions share a
/// sort key.
pub proof fn lemma_sort_shuffle_insensitive(s1: Seq<InteractionNode>, s2: Seq<InteractionNode>)
    requires
        s1.to_multiset() == s2.to_multiset(),
        distinct_keys(s1),
    ensures
        sort_spec(s1) == sort_spec(s2),
{
    lemma_sort_spec_props(s1);
    lemma_sort_spec_props(s2);
    lemma_distinct_keys_permute(s1, sort_spec(s1));
    lemma_sorted_unique(sort_spec(s1), sort_spec(s2));
}

/// Lexicographic comparison of two strings, by code point.
pub fn str_lex_lt(a: &str, b: &str) -> (r: bool)
    ensures
        r == lex_lt(a@, b@),
{
    let alen = a.unicode_len();
    let blen = b.unicode_len();
    let mut i: usize = 0;
    proof {
        assert(a@.skip(0) =~= a@);
        assert(b@.skip(0) =~= b@);
    }
    while i < alen && i < blen
        invariant
            i <= alen,
            i <= blen,
            alen == a@.len(),
            blen == b@.len(),
            lex_lt(a@, b@) == lex_lt(a@.skip(i as int), b@.skip(i as int)),
        decreases alen - i,
    {
        let ca = a.get_char(i);
        let cb = b.get_char(i);
        if ca != cb {
            proof {
                assert(a@.skip(i as int)[0] == a@[i as int]);
                assert(b@.skip(i as int)[0] == b@[i as int]);
            }
            return ca < cb;
        }
        proof {
            assert(a@.skip(i as int).drop_first() =~= a@.skip(i + 1));
            assert(b@.skip(i as int).drop_first() =~= b@.skip(i + 1));
            assert(a@.skip(i as int)[0] == a@[i as int]);
            assert(b@.skip(i as int)[0] == b@[i as int]);
        }
        i = i + 1;
    }
    proof {
        if i >= blen {
            assert(b@.skip(i as int).len() == 0);
        } else {
            assert(a@.skip(i as int).len() == 0);
            assert(b@.skip(i as int).len() > 0);
        }
    }
    alen < blen
}

/// The canonical comparison of two interactions.
pub fn key_lt_exec(a: &InteractionNode, b: &InteractionNode) -> (r: bool)
    ensures
        r == key_lt(*a, *b),
{
    if a.block.height < b.block.height {
        true
    } else if a.block.height == b.block.height {
        if str_lex_lt(a.block.id.as_str(), b.block.id.as_str()) {
            true
        } else if a.block.id == b.block.id {
            str_lex_lt(a.id.as_str(), b.id.as_str())
        } else {
            false
        }
    } else {
        false
    }
}

/// Sorts interactions into the canonical order: the result is exactly the
/// canonical arrangement of the input, hence sorted and a permutation of it.
pub fn sort_interactions(interactions: Vec<InteractionNode>) -> (r: Vec<InteractionNode>)
    ensures
        r@ == sort_spec(interactions@),
        sorted(r@),
        r@.to_multiset() == interactions@.to_multiset(),
        r@.len() == interactions@.len(),
{
    let ghost orig = interactions@;
    let mut v = interactions;
    let n = v.len();
    let mut i: usize = 1;
    proof {
        lemma_sort_spec_props(orig);
        if n > 0 {
            assert(orig.take(1).drop_last() =~= Seq::<InteractionNode>::empty());
            assert(orig.take(1).last() == orig[0]);
            assert(sort_spec(orig.take(1)) == insert_sorted(
                orig[0],
                sort_spec(Seq::<InteractionNode>::empty()),
            ));
            assert(sort_spec(Seq::<InteractionNode>::empty()) == Seq::<InteractionNode>::empty());
            assert(sort_spec(orig.take(1)) == seq![orig[0]]);
            assert(v@ =~= sort_spec(orig.take(1)) + orig.skip(1));
        }
    }
    if n <= 1 {
        proof {
            if n == 0 {
                assert(orig.len() == 0);
            } else {
                assert(v@ =~= sort_spec(orig)) by {
                    assert(orig.take(1) =~= orig);
                    assert(orig.skip(1) =~= Seq::<InteractionNode>::empty());
                }
            }
        }
        return v;
    }
    while i < n
        invariant
            1 <= i <= n,
            n == v@.len(),
            n == orig.len(),
            v@ == sort_spec(orig.take(i as int)) + orig.skip(i as int),
        decreases n - i,
    {
        let ghost sprefix = sort_spec(orig.take(i as int));
        proof {
            lemma_sort_spec_props(orig.take(i as int));
            assert(sprefix.len() == i);
        }
        // find the insertion position for v[i] in the sorted prefix v[..i]
        let mut p: usize = 0;
        while p < i
            invariant
                0 <= p <= i < n,
                n == v@.len(),
                v@ == sprefix + orig.skip(i as int),
                sprefix.len() == i,
                orig.len() == n,
                forall|q: int| 0 <= q < p ==> !key_lt(v@[i as int], #[trigger] sprefix[q]),
            ensures
                0 <= p <= i,
                forall|q: int| 0 <= q < p ==> !key_lt(v@[i as int], #[trigger] sprefix[q]),
                p < i ==> key_lt(v@[i as int], sprefix[p as int]),
            decreases i - p,
        {
            let below = key_lt_exec(&v[i], &v[p]);
            if below {
                break;
            }
            p = p + 1;
        }
        let ghost x = v@[i as int];
        proof {
            assert(x == orig.skip(i as int)[0]);
            assert(x == orig[i as int]);
            lemma_insert_sorted_split(x, sprefix, p as int);
        }
        let moved = v.remove(i);
        v.insert(p, moved);
        proof {
            assert(orig.take(i + 1).drop_last() =~= orig.take(i as int));
            assert(orig.take(i + 1).last() == orig[i as int]);
            assert(sort_spec(orig.take(i + 1)) == insert_sorted(x, sprefix));
            assert(v@ =~= sort_spec(orig.take(i + 1)) + orig.skip(i + 1)) by {
                assert(v@ =~= (sprefix.take(p as int) + seq![x] + sprefix.skip(p as int)) + orig.skip(
                    i + 1,
                ));
            }
        }
        i = i + 1;
    }
    proof {
        assert(orig.take(n as int) =~= orig);
        assert(orig.skip(n as int) =~= Seq::<InteractionNode>::empty());
        assert(v@ =~= sort_spec(orig));
    }
    v
}

} // verus!
