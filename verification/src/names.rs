//! Ordering of names by their characters, and the sort that gives network
//! interfaces a stable index.

use vstd::prelude::*;
use vstd::string::*;

verus! {

/// `a` comes no later than `b` in lexicographic order of character codes (a proper
/// prefix comes first). For UTF-8 text this is the order of `String`'s `Ord`.
pub open spec fn text_le(a: Seq<char>, b: Seq<char>) -> bool
    decreases a.len(),
{
    if a.len() == 0 {
        true
    } else if b.len() == 0 {
        false
    } else if a[0] != b[0] {
        (a[0] as int) < (b[0] as int)
    } else {
        text_le(a.drop_first(), b.drop_first())
    }
}

/// The texts of a sequence of strings.
pub open spec fn texts(v: Seq<String>) -> Seq<Seq<char>> {
    Seq::new(v.len(), |i: int| v[i]@)
}

/// Each text comes no later than every text after it.
pub open spec fn sorted_texts(s: Seq<Seq<char>>) -> bool {
    forall|i: int, j: int| 0 <= i < j < s.len() ==> text_le(#[trigger] s[i], #[trigger] s[j])
}

/// Any two texts are ordered one way or the other.
pub proof fn lemma_text_le_total(a: Seq<char>, b: Seq<char>)
    ensures
        text_le(a, b) || text_le(b, a),
    decreases a.len(),
{
    if a.len() > 0 && b.len() > 0 {
        if a[0] == b[0] {
            lemma_text_le_total(a.drop_first(), b.drop_first());
        } else {
            assert((a[0] as int) != (b[0] as int));
        }
    }
}

/// The order is transitive.
pub proof fn lemma_text_le_transitive(a: Seq<char>, b: Seq<char>, c: Seq<char>)
    requires
        text_le(a, b),
        text_le(b, c),
    ensures
        text_le(a, c),
    decreases a.len(),
{
    if a.len() > 0 && b.len() > 0 && c.len() > 0 && a[0] == b[0] && b[0] == c[0] {
        lemma_text_le_transitive(a.drop_first(), b.drop_first(), c.drop_first());
    }
}

/// Two texts each no later than the other are equal.
pub proof fn lemma_text_le_antisymmetric(a: Seq<char>, b: Seq<char>)
    requires
        text_le(a, b),
        text_le(b, a),
    ensures
        a == b,
    decreases a.len(),
{
    if a.len() > 0 {
        lemma_text_le_antisymmetric(a.drop_first(), b.drop_first());
        assert(a =~= seq![a[0]] + a.drop_first());
        assert(b =~= seq![b[0]] + b.drop_first());
    }
}

/// A text comes no later than any text it is a prefix of, and at the first place
/// where two texts differ, the smaller character code comes first.
pub proof fn lemma_text_le_order(a: Seq<char>, b: Seq<char>, i: int)
    ensures
        text_le(a, a + b),
        0 <= i < a.len() && i < b.len() && a.take(i) == b.take(i) && (a[i] as int) < (b[i] as int)
            ==> text_le(a, b) && !text_le(b, a),
    decreases a.len(),
{
    if a.len() > 0 {
        assert((a + b).drop_first() =~= a.drop_first() + b);
        lemma_text_le_order(a.drop_first(), b, i);
        if 0 < i < a.len() && i < b.len() && a.take(i) == b.take(i) && (a[i] as int) < (b[i] as int) {
            assert(a[0] == a.take(i)[0]);
            assert(b[0] == b.take(i)[0]);
            assert(a.drop_first().take(i - 1) =~= a.take(i).drop_first());
            assert(b.drop_first().take(i - 1) =~= b.take(i).drop_first());
            lemma_text_le_order(a.drop_first(), b.drop_first(), i - 1);
        }
    }
}

/// Two sorted arrangements of the same texts (with repeats) are the same sequence, so
/// a set of interface names always receives the same indices.
pub proof fn lemma_sorted_unique(a: Seq<Seq<char>>, b: Seq<Seq<char>>)
    requires
        sorted_texts(a),
        sorted_texts(b),
        a.to_multiset() == b.to_multiset(),
    ensures
        a == b,
    decreases a.len(),
{
    broadcast use vstd::seq_lib::group_to_multiset_ensures;

    vstd::seq_lib::to_multiset_len(a);
    vstd::seq_lib::to_multiset_len(b);
    if a.len() == 0 {
        assert(a =~= b);
    } else {
        assert(a.contains(a[0]));
        assert(b.contains(b[0]));
        vstd::seq_lib::to_multiset_contains(a, a[0]);
        vstd::seq_lib::to_multiset_contains(b, a[0]);
        vstd::seq_lib::to_multiset_contains(a, b[0]);
        vstd::seq_lib::to_multiset_contains(b, b[0]);
        assert(b.contains(a[0]));
        assert(a.contains(b[0]));
        let j = choose|j: int| 0 <= j < b.len() && b[j] == a[0];
        let i = choose|i: int| 0 <= i < a.len() && a[i] == b[0];
        if j > 0 {
            assert(text_le(b[0], b[j]));
        } else {
            lemma_text_le_total(b[0], b[j]);
        }
        if i > 0 {
            assert(text_le(a[0], a[i]));
        } else {
            lemma_text_le_total(a[0], a[i]);
        }
        lemma_text_le_antisymmetric(a[0], b[0]);
        let a1 = a.drop_first();
        let b1 = b.drop_first();
        assert(a.remove(0) =~= a1);
        assert(b.remove(0) =~= b1);
        vstd::seq_lib::to_multiset_remove(a, 0);
        vstd::seq_lib::to_multiset_remove(b, 0);
        assert(a1.to_multiset() == b1.to_multiset());
        assert(sorted_texts(a1)) by {
            assert forall|p: int, q: int| 0 <= p < q < a1.len() implies text_le(
                #[trigger] a1[p],
                #[trigger] a1[q],
            ) by {
                assert(text_le(a[p + 1], a[q + 1]));
            }
        }
        assert(sorted_texts(b1)) by {
            assert forall|p: int, q: int| 0 <= p < q < b1.len() implies text_le(
                #[trigger] b1[p],
                #[trigger] b1[q],
            ) by {
                assert(text_le(b[p + 1], b[q + 1]));
            }
        }
        lemma_sorted_unique(a1, b1);
        assert forall|k: int| 0 <= k < a.len() implies a[k] == b[k] by {
            if k > 0 {
                assert(a[k] == a1[k - 1]);
                assert(b[k] == b1[k - 1]);
            }
        }
        assert(a =~= b);
    }
}

/// Compares two names in the order [`text_le`].
pub fn name_le(a: &String, b: &String) -> (r: bool)
    ensures
        r == text_le(a@, b@),
{
    let sa = a.as_str();
    let sb = b.as_str();
    let la = sa.unicode_len();
    let lb = sb.unicode_len();
    let mut i: usize = 0;
    assert(a@.skip(0) =~= a@);
    assert(b@.skip(0) =~= b@);
    while i < la && i < lb
        invariant
            la == a@.len(),
            lb == b@.len(),
            sa@ == a@,
            sb@ == b@,
            i <= la,
            i <= lb,
            text_le(a@, b@) == text_le(a@.skip(i as int), b@.skip(i as int)),
        decreases la - i,
    {
        let ca = sa.get_char(i);
        let cb = sb.get_char(i);
        if ca != cb {
            return (ca as u32) < (cb as u32);
        }
        assert(a@.skip(i as int).drop_first() =~= a@.skip(i + 1));
        assert(b@.skip(i as int).drop_first() =~= b@.skip(i + 1));
        i = i + 1;
    }
    i == la
}

/// The names in the order [`text_le`], as `Vec::sort` leaves them: the same names
/// (with repeats) rearranged so that each comes no later than the next.
pub fn sort_names(names: &Vec<String>) -> (sorted: Vec<String>)
    ensures
        sorted_texts(texts(sorted@)),
        texts(sorted@).to_multiset() == texts(names@).to_multiset(),
{
    broadcast use vstd::seq_lib::group_to_multiset_ensures;

    let mut out: Vec<String> = Vec::new();
    let mut k: usize = 0;
    while k < names.len()
        invariant
            k <= names@.len(),
            sorted_texts(texts(out@)),
            texts(out@).to_multiset() == texts(names@).take(k as int).to_multiset(),
        decreases names@.len() - k,
    {
        let name = names[k].clone();
        let mut p: usize = 0;
        while p < out.len() && name_le(&out[p], &name)
            invariant
                p <= out@.len(),
                k < names@.len(),
                name@ == names@[k as int]@,
                forall|q: int| 0 <= q < p ==> text_le(#[trigger] out@[q]@, name@),
            decreases out@.len() - p,
        {
            p = p + 1;
        }
        let ghost before = texts(out@);
        proof {
            if p < out@.len() {
                lemma_text_le_total(out@[p as int]@, name@);
            }
            assert forall|q: int| p <= q < before.len() implies text_le(name@, #[trigger] before[q]) by {
                if q > p {
                    assert(text_le(before[p as int], before[q]));
                    lemma_text_le_transitive(name@, before[p as int], before[q]);
                }
            }
        }
        out.insert(p, name);
        proof {
            let after = texts(out@);
            assert(after =~= before.insert(p as int, name@));
            assert forall|i: int, j: int| 0 <= i < j < after.len() implies text_le(
                #[trigger] after[i],
                #[trigger] after[j],
            ) by {
                if j < p {
                    assert(text_le(before[i], before[j]));
                } else if j == p {
                    assert(text_le(out@[i]@, name@));
                } else if i < p {
                    assert(text_le(before[i], name@));
                    assert(text_le(name@, before[j - 1]));
                    lemma_text_le_transitive(before[i], name@, before[j - 1]);
                } else if i == p {
                    assert(text_le(name@, before[j - 1]));
                } else {
                    assert(text_le(before[i - 1], before[j - 1]));
                }
            }
            assert(texts(names@)[k as int] == name@);
            assert(texts(names@).take(k + 1) =~= texts(names@).take(k as int).push(name@));
            vstd::seq_lib::to_multiset_insert(before, p as int, name@);
            vstd::seq_lib::to_multiset_build(texts(names@).take(k as int), name@);
        }
        k = k + 1;
    }
    assert(texts(names@).take(names@.len() as int) =~= texts(names@));
    out
}

} // verus!
