//! Ordering of snapshot rows, busiest first.
use vstd::prelude::*;
use vstd::multiset::Multiset;

verus! {

broadcast use vstd::seq_lib::group_to_multiset_ensures, vstd::multiset::group_multiset_axioms;

/// A row that is ordered by a number, larger first.
pub trait Ranked: Sized {
    spec fn rank_spec(&self) -> nat;

    fn rank(&self) -> (r: u64)
        ensures
            r as nat == self.rank_spec(),
    ;
}

/// Larger ranks come first.
pub open spec fn sorted_desc<T: Ranked>(s: Seq<T>) -> bool {
    forall|i: int, j: int| 0 <= i < j < s.len() ==> s[i].rank_spec() >= s[j].rank_spec()
}

/// The rows of `v`, ordered by rank, largest first.
pub fn sort_desc<T: Ranked>(v: Vec<T>) -> (r: Vec<T>)
    ensures
        r@.to_multiset() == v@.to_multiset(),
        sorted_desc(r@),
{
    let ghost orig = v@;
    let mut v = v;
    let mut r: Vec<T> = Vec::new();
    assert(r@.to_multiset() =~= Multiset::<T>::empty());
    assert(v@.to_multiset().add(r@.to_multiset()) =~= orig.to_multiset());
    while v.len() > 0
        invariant
            v@.to_multiset().add(r@.to_multiset()) == orig.to_multiset(),
            sorted_desc(r@),
        decreases v.len(),
    {
        let ghost before_v = v@;
        let ghost before_r = r@;
        let x = v.pop().unwrap();
        assert(before_v =~= v@.push(x));
        let k = x.rank();
        let mut p: usize = 0;
        while p < r.len() && r[p].rank() >= k
            invariant
                p <= r.len(),
                r@ == before_r,
                forall|j: int| 0 <= j < p ==> r@[j].rank_spec() >= k,
            decreases r.len() - p,
        {
            p = p + 1;
        }
        r.insert(p, x);
        assert(r@ == before_r.insert(p as int, x));
        assert forall|i: int, j: int| 0 <= i < j < r@.len() implies r@[i].rank_spec()
            >= r@[j].rank_spec() by {
            if p < before_r.len() {
                assert(before_r[p as int].rank_spec() < k);
            }
            if i < p && j == p {
            } else if i == p && j > p {
                assert(before_r[p as int].rank_spec() >= before_r[j - 1].rank_spec());
            } else if i < p && j > p {
                assert(before_r[i].rank_spec() >= before_r[j - 1].rank_spec());
            } else if j < p {
                assert(before_r[i].rank_spec() >= before_r[j].rank_spec());
            } else {
                assert(before_r[i - 1].rank_spec() >= before_r[j - 1].rank_spec());
            }
        }
        assert(v@.to_multiset().add(r@.to_multiset()) =~= orig.to_multiset());
    }
    assert(v@.to_multiset() =~= Multiset::<T>::empty());
    assert(r@.to_multiset() =~= orig.to_multiset());
    r
}

/// `a` comes strictly before `b` in lexicographic order of characters
/// (the order of `String`, whose UTF-8 bytes order as the characters do).
pub open spec fn lex_lt(a: Seq<char>, b: Seq<char>) -> bool
    decreases a.len(),
{
    if a.len() == 0 {
        b.len() > 0
    } else if b.len() == 0 {
        false
    } else if a[0] != b[0] {
        (a[0] as int) < (b[0] as int)
    } else {
        lex_lt(a.drop_first(), b.drop_first())
    }
}

pub proof fn lemma_lex_trichotomy(a: Seq<char>, b: Seq<char>)
    ensures
        lex_lt(a, b) || a == b || lex_lt(b, a),
        !(lex_lt(a, b) && lex_lt(b, a)),
        !(lex_lt(a, b) && a == b),
    decreases a.len(),
{
    if a.len() > 0 && b.len() > 0 && a[0] == b[0] {
        lemma_lex_trichotomy(a.drop_first(), b.drop_first());
        if a.drop_first() == b.drop_first() {
            assert forall|k: int| 0 <= k < a.len() implies a[k] == b[k] by {
                if k > 0 {
                    assert(a[k] == a.drop_first()[k - 1]);
                    assert(b[k] == b.drop_first()[k - 1]);
                }
            }
            assert(a =~= b);
        }
    } else if a.len() == 0 && b.len() == 0 {
        assert(a =~= b);
    }
}

pub proof fn lemma_lex_transitive(a: Seq<char>, b: Seq<char>, c: Seq<char>)
    requires
        lex_lt(a, b),
        lex_lt(b, c),
    ensures
        lex_lt(a, c),
    decreases a.len(),
{
    if a.len() > 0 && b.len() > 0 && c.len() > 0 && a[0] == b[0] && b[0] == c[0] {
        lemma_lex_transitive(a.drop_first(), b.drop_first(), c.drop_first());
    }
}

/// Whether `a` comes strictly before `b`.
pub fn lex_less(a: &Vec<char>, b: &Vec<char>) -> (r: bool)
    ensures
        r == lex_lt(a@, b@),
{
    let mut i: usize = 0;
    assert(a@.skip(0) =~= a@);
    assert(b@.skip(0) =~= b@);
    loop
        invariant
            i <= a.len(),
            i <= b.len(),
            lex_lt(a@, b@) == lex_lt(a@.skip(i as int), b@.skip(i as int)),
        decreases a.len() - i,
    {
        if i == a.len() {
            return i < b.len();
        }
        if i == b.len() {
            return false;
        }
        if a[i] != b[i] {
            return a[i] < b[i];
        }
        assert(a@.skip(i as int).drop_first() =~= a@.skip(i + 1));
        assert(b@.skip(i as int).drop_first() =~= b@.skip(i + 1));
        i = i + 1;
    }
}

/// Names ordered: lexicographically, and equal names in their list order.
pub open spec fn name_ordered(names: Seq<Seq<char>>, r: Seq<usize>) -> bool {
    forall|i: int, j: int|
        0 <= i < j < r.len() ==> lex_lt(names[r[i] as int], names[r[j] as int]) || (names[r[i] as int]
            == names[r[j] as int] && r[i] < r[j])
}

pub open spec fn name_views(names: Seq<String>) -> Seq<Seq<char>> {
    names.map_values(|n: String| n@)
}

/// The positions `0..n`.
pub open spec fn positions(n: nat) -> Seq<usize> {
    Seq::new(n, |i: int| i as usize)
}

/// The order in which to list named items: their positions sorted by
/// name, items with equal names kept in list order (a stable sort).
pub fn order_by_name(names: &Vec<String>) -> (r: Vec<usize>)
    ensures
        r@.to_multiset() == positions(names.len() as nat).to_multiset(),
        name_ordered(name_views(names@), r@),
{
    let ghost nv = name_views(names@);
    let mut chars: Vec<Vec<char>> = Vec::new();
    let mut k: usize = 0;
    while k < names.len()
        invariant
            k <= names.len(),
            nv == name_views(names@),
            chars.len() == k,
            forall|m: int| 0 <= m < k ==> (#[trigger] chars@[m])@ == nv[m],
        decreases names.len() - k,
    {
        chars.push(crate::text::chars_of(names[k].as_str()));
        k = k + 1;
    }
    let mut r: Vec<usize> = Vec::new();
    let mut i: usize = 0;
    assert(r@.to_multiset() =~= positions(0).to_multiset()) by {
        assert(positions(0) =~= Seq::<usize>::empty());
    }
    while i < names.len()
        invariant
            i <= names.len() == chars.len(),
            nv == name_views(names@),
            nv.len() == names.len(),
            forall|m: int| 0 <= m < names.len() ==> (#[trigger] chars@[m])@ == nv[m],
            r@.to_multiset() == positions(i as nat).to_multiset(),
            forall|m: int| 0 <= m < r.len() ==> #[trigger] r@[m] < i,
            name_ordered(nv, r@),
        decreases names.len() - i,
    {
        let mut p: usize = 0;
        while p < r.len() && !lex_less(&chars[i], &chars[r[p]])
            invariant
                p <= r.len(),
                i < chars.len() == names.len(),
                nv.len() == names.len(),
                forall|m: int| 0 <= m < r.len() ==> #[trigger] r@[m] < i,
                forall|m: int| 0 <= m < names.len() ==> (#[trigger] chars@[m])@ == nv[m],
                forall|m: int| 0 <= m < p ==> !lex_lt(nv[i as int], #[trigger] nv[r@[m] as int]),
            decreases r.len() - p,
        {
            p = p + 1;
        }
        let ghost old_r = r@;
        r.insert(p, i);
        proof {
            assert(r@ == old_r.insert(p as int, i));
            assert(positions((i + 1) as nat) =~= positions(i as nat).push(i));
            if p < old_r.len() {
                assert(lex_lt(nv[i as int], nv[old_r[p as int] as int]));
            }
            assert forall|a: int, b: int| 0 <= a < b < r@.len() implies lex_lt(
                nv[r@[a] as int],
                nv[r@[b] as int],
            ) || (nv[r@[a] as int] == nv[r@[b] as int] && r@[a] < r@[b]) by {
                let x = nv[i as int];
                if b == p {
                    let y = nv[old_r[a] as int];
                    lemma_lex_trichotomy(y, x);
                    assert(!lex_lt(x, y));
                    assert(old_r[a] < i);
                } else if a == p {
                    let y = nv[old_r[b - 1] as int];
                    let z = nv[old_r[p as int] as int];
                    assert(lex_lt(x, z));
                    if b - 1 > p {
                        assert(lex_lt(z, y) || (z == y));
                        if lex_lt(z, y) {
                            lemma_lex_transitive(x, z, y);
                        }
                    }
                } else if a < p && b > p {
                    assert(r@[a] == old_r[a]);
                    assert(r@[b] == old_r[b - 1]);
                } else if b < p {
                    assert(r@[a] == old_r[a]);
                    assert(r@[b] == old_r[b]);
                } else {
                    assert(r@[a] == old_r[a - 1]);
                    assert(r@[b] == old_r[b - 1]);
                }
            }
            assert forall|m: int| 0 <= m < r.len() implies #[trigger] r@[m] < i + 1 by {
                if m < p {
                    assert(r@[m] == old_r[m]);
                } else if m > p {
                    assert(r@[m] == old_r[m - 1]);
                }
            }
        }
        i = i + 1;
    }
    r
}

} // verus!
