use crate::models::ClipboardItem;
use vstd::prelude::*;

verus! {

/// The orders in which the store arranges items.
#[derive(Clone, Copy, Debug)]
pub enum SortOrder {
    /// Favorites before non-favorites, then most recent first, newest id
    /// breaking ties: the order of paginated history.
    History,
    /// Most recent first, newest id breaking ties: the order of search
    /// results.
    Recency,
    /// Oldest first, lowest id breaking ties: the order in which eviction
    /// consumes candidates.
    Oldest,
}

/// `a` comes strictly before `b` under order `o`. On items with distinct
/// ids this is a strict total order.
pub open spec fn item_before(o: SortOrder, a: ClipboardItem, b: ClipboardItem) -> bool {
    match o {
        SortOrder::History => {
            ||| (a.is_favorite && !b.is_favorite)
            ||| (a.is_favorite == b.is_favorite && a.copied_at > b.copied_at)
            ||| (a.is_favorite == b.is_favorite && a.copied_at == b.copied_at && a.id > b.id)
        },
        SortOrder::Recency => {
            ||| a.copied_at > b.copied_at
            ||| (a.copied_at == b.copied_at && a.id > b.id)
        },
        SortOrder::Oldest => {
            ||| a.copied_at < b.copied_at
            ||| (a.copied_at == b.copied_at && a.id < b.id)
        },
    }
}

/// No element strictly precedes an earlier one: the sequence is arranged
/// by `o`.
pub open spec fn arranged(o: SortOrder, s: Seq<ClipboardItem>) -> bool {
    forall|i: int, j: int| 0 <= i < j < s.len() ==> !item_before(o, #[trigger] s[j], #[trigger] s[i])
}

pub fn item_before_exec(o: SortOrder, a: &ClipboardItem, b: &ClipboardItem) -> (r: bool)
    ensures
        r == item_before(o, *a, *b),
{
    match o {
        SortOrder::History => {
            (a.is_favorite && !b.is_favorite) || (a.is_favorite == b.is_favorite && a.copied_at
                > b.copied_at) || (a.is_favorite == b.is_favorite && a.copied_at == b.copied_at
                && a.id > b.id)
        },
        SortOrder::Recency => {
            a.copied_at > b.copied_at || (a.copied_at == b.copied_at && a.id > b.id)
        },
        SortOrder::Oldest => {
            a.copied_at < b.copied_at || (a.copied_at == b.copied_at && a.id < b.id)
        },
    }
}

/// Insertion of `x` into `s`, just before the first element that `x`
/// strictly precedes.
pub open spec fn sorted_insert(o: SortOrder, s: Seq<ClipboardItem>, x: ClipboardItem) -> Seq<
    ClipboardItem,
>
    decreases s.len(),
{
    if s.len() == 0 {
        seq![x]
    } else if item_before(o, x, s[0]) {
        seq![x] + s
    } else {
        seq![s[0]] + sorted_insert(o, s.drop_first(), x)
    }
}

/// Insertion sort of `s` under order `o`: the arrangement the store's
/// queries hand out.
pub open spec fn sort_spec(o: SortOrder, s: Seq<ClipboardItem>) -> Seq<ClipboardItem>
    decreases s.len(),
{
    if s.len() == 0 {
        Seq::empty()
    } else {
        sorted_insert(o, sort_spec(o, s.drop_last()), s.last())
    }
}

/// `sorted_insert` puts `x` exactly at the first index whose element `x`
/// strictly precedes.
proof fn lemma_sorted_insert_at(o: SortOrder, s: Seq<ClipboardItem>, x: ClipboardItem, j: int)
    requires
        0 <= j <= s.len(),
        forall|k: int| 0 <= k < j ==> !item_before(o, x, #[trigger] s[k]),
        j < s.len() ==> item_before(o, x, s[j]),
    ensures
        sorted_insert(o, s, x) == s.take(j) + seq![x] + s.skip(j),
    decreases s.len(),
{
    if s.len() == 0 {
        assert(sorted_insert(o, s, x) =~= s.take(j) + seq![x] + s.skip(j));
    } else if item_before(o, x, s[0]) {
        assert(j == 0);
        assert(sorted_insert(o, s, x) =~= s.take(0) + seq![x] + s.skip(0));
    } else {
        assert(j >= 1);
        let rest = s.drop_first();
        assert(forall|k: int| 0 <= k < j - 1 ==> !item_before(o, x, #[trigger] rest[k]));
        lemma_sorted_insert_at(o, rest, x, j - 1);
        assert(sorted_insert(o, s, x) =~= s.take(j) + seq![x] + s.skip(j));
    }
}

/// Strict precedence is transitive.
pub proof fn lemma_before_trans(o: SortOrder, a: ClipboardItem, b: ClipboardItem, c: ClipboardItem)
    requires
        item_before(o, a, b),
        item_before(o, b, c),
    ensures
        item_before(o, a, c),
{
}

/// Sorts the items under order `o`. The result is exactly `sort_spec`,
/// is arranged, and holds only elements of the input.
pub fn sort_items(o: SortOrder, v: &Vec<ClipboardItem>) -> (r: Vec<ClipboardItem>)
    ensures
        r@ == sort_spec(o, v@),
        r@.len() == v@.len(),
        arranged(o, r@),
        forall|k: int| 0 <= k < r@.len() ==> v@.contains(#[trigger] r@[k]),
{
    let n = v.len();
    let mut r: Vec<ClipboardItem> = Vec::new();
    let mut i: usize = 0;
    while i < n
        invariant
            n == v@.len(),
            i <= n,
            r@ == sort_spec(o, v@.take(i as int)),
            r@.len() == i,
            arranged(o, r@),
            forall|k: int| 0 <= k < r@.len() ==> v@.take(i as int).contains(#[trigger] r@[k]),
        decreases n - i,
    {
        let x = v[i].duplicate();
        let m = r.len();
        let mut j: usize = 0;
        while j < m && !item_before_exec(o, &x, &r[j])
            invariant
                m == r@.len(),
                j <= m,
                x == v@[i as int],
                forall|k: int| 0 <= k < j ==> !item_before(o, x, #[trigger] r@[k]),
            decreases m - j,
        {
            j = j + 1;
        }
        proof {
            lemma_sorted_insert_at(o, r@, x, j as int);
            assert(v@.take(i + 1).drop_last() =~= v@.take(i as int));
            assert(v@.take(i + 1).last() == v@[i as int]);
        }
        let ghost old_r = r@;
        r.insert(j, x);
        proof {
            assert(r@ =~= old_r.take(j as int) + seq![x] + old_r.skip(j as int));
            assert(r@ == sorted_insert(o, old_r, x));
            assert(r@ == sort_spec(o, v@.take(i + 1)));
            // the new element keeps the arrangement
            assert forall|a: int, b: int| 0 <= a < b < r@.len() implies !item_before(
                o,
                r@[b],
                r@[a],
            ) by {
                if a < j && b == j {
                    assert(r@[a] == old_r[a]);
                    assert(!item_before(o, x, old_r[a]));
                } else if a == j && b > j {
                    assert(r@[b] == old_r[b - 1]);
                    if item_before(o, old_r[b - 1], x) {
                        assert(j < old_r.len());
                        assert(item_before(o, x, old_r[j as int]));
                        lemma_before_trans(o, old_r[b - 1], x, old_r[j as int]);
                        assert(!item_before(o, old_r[b - 1], old_r[j as int]));
                    }
                } else if a < j && b > j {
                    assert(r@[a] == old_r[a] && r@[b] == old_r[b - 1]);
                } else if a != j && b != j {
                    assert(a > j || b < j);
                }
            }
            // membership carries to the longer prefix
            assert forall|k: int| 0 <= k < r@.len() implies v@.take(i + 1).contains(
                #[trigger] r@[k],
            ) by {
                if k == j {
                    assert(v@.take(i + 1)[i as int] == x);
                } else {
                    let y = if k < j {
                        old_r[k]
                    } else {
                        old_r[k - 1]
                    };
                    assert(r@[k] == y);
                    assert(v@.take(i as int).contains(y));
                    let w = choose|w: int|
                        0 <= w < v@.take(i as int).len() && v@.take(i as int)[w] == y;
                    assert(v@.take(i + 1)[w] == y);
                }
            }
        }
        i = i + 1;
    }
    proof {
        assert(v@.take(n as int) =~= v@);
    }
    r
}

} // verus!
