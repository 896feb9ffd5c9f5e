//! Stable sorting, as the order in which the positions of a list come out.

use vstd::prelude::*;

verus! {

/// Values with a total order.
pub trait Ranked: Sized {
    /// `self` does not come after `other`.
    spec fn key_le(self, other: Self) -> bool;

    proof fn key_le_total(a: Self, b: Self)
        ensures
            a.key_le(b) || b.key_le(a),
    ;

    proof fn key_le_transitive(a: Self, b: Self, c: Self)
        requires
            a.key_le(b),
            b.key_le(c),
        ensures
            a.key_le(c),
    ;
}

/// Keys that a list can be sorted by.
pub trait SortKey: Sized {
    type Rank: Ranked;

    /// What the key is compared by.
    spec fn key_rank(self) -> Self::Rank;

    /// Whether `self` does not come after `other`.
    fn not_after(&self, other: &Self) -> (yes: bool)
        ensures
            yes == self.key_rank().key_le(other.key_rank()),
    ;
}

/// What the keys of a list are compared by.
pub open spec fn key_ranks<K: SortKey>(keys: Seq<K>) -> Seq<K::Rank> {
    keys.map_values(|k: K| k.key_rank())
}

impl Ranked for i64 {
    open spec fn key_le(self, other: i64) -> bool {
        self <= other
    }

    proof fn key_le_total(a: i64, b: i64) {
    }

    proof fn key_le_transitive(a: i64, b: i64, c: i64) {
    }
}

impl SortKey for i64 {
    type Rank = i64;

    open spec fn key_rank(self) -> i64 {
        self
    }

    fn not_after(&self, other: &i64) -> (yes: bool) {
        *self <= *other
    }
}

/// Lexicographic order by code point.
pub open spec fn text_le(a: Seq<char>, b: Seq<char>) -> bool
    decreases a.len(),
{
    if a.len() == 0 {
        true
    } else if b.len() == 0 {
        false
    } else if a[0] == b[0] {
        text_le(a.drop_first(), b.drop_first())
    } else {
        a[0] < b[0]
    }
}

/// Any two texts compare.
pub proof fn text_le_total(a: Seq<char>, b: Seq<char>)
    ensures
        text_le(a, b) || text_le(b, a),
    decreases a.len(),
{
    if a.len() > 0 && b.len() > 0 && a[0] == b[0] {
        text_le_total(a.drop_first(), b.drop_first());
    }
}

/// The order of texts is transitive.
pub proof fn text_le_transitive(a: Seq<char>, b: Seq<char>, c: Seq<char>)
    requires
        text_le(a, b),
        text_le(b, c),
    ensures
        text_le(a, c),
    decreases a.len(),
{
    if a.len() > 0 && b.len() > 0 && c.len() > 0 && a[0] == b[0] && b[0] == c[0] {
        text_le_transitive(a.drop_first(), b.drop_first(), c.drop_first());
    }
}

/// Two texts that compare equal are the same text.
pub proof fn text_le_antisymmetric(a: Seq<char>, b: Seq<char>)
    requires
        text_le(a, b),
        text_le(b, a),
    ensures
        a == b,
    decreases a.len(),
{
    if a.len() > 0 && b.len() > 0 {
        text_le_antisymmetric(a.drop_first(), b.drop_first());
        assert(a =~= seq![a[0]] + a.drop_first());
        assert(b =~= seq![b[0]] + b.drop_first());
    } else {
        assert(a =~= b);
    }
}

impl Ranked for Seq<char> {
    open spec fn key_le(self, other: Seq<char>) -> bool {
        text_le(self, other)
    }

    proof fn key_le_total(a: Seq<char>, b: Seq<char>) {
        text_le_total(a, b);
    }

    proof fn key_le_transitive(a: Seq<char>, b: Seq<char>, c: Seq<char>) {
        text_le_transitive(a, b, c);
    }
}

impl SortKey for Vec<char> {
    type Rank = Seq<char>;

    open spec fn key_rank(self) -> Seq<char> {
        self@
    }

    fn not_after(&self, other: &Vec<char>) -> (yes: bool) {
        let mut i: usize = 0;
        assert(self@.skip(0) == self@);
        assert(other@.skip(0) == other@);
        while i < self.len()
            invariant
                i <= self@.len(),
                i <= other@.len(),
                text_le(self@, other@) == text_le(self@.skip(i as int), other@.skip(i as int)),
            decreases self.len() - i,
        {
            if i >= other.len() {
                return false;
            }
            if self[i] != other[i] {
                return self[i] < other[i];
            }
            assert(self@.skip(i as int).drop_first() == self@.skip(i + 1));
            assert(other@.skip(i as int).drop_first() == other@.skip(i + 1));
            i = i + 1;
        }
        true
    }
}

/// Position `i` of `keys` comes out before position `j`: its key is smaller, or the keys are equal
/// and it stood first.
pub open spec fn goes_before<K: Ranked>(keys: Seq<K>, i: int, j: int) -> bool {
    keys[i].key_le(keys[j]) && (keys[j].key_le(keys[i]) ==> i < j)
}

/// `order` lists every position of `keys` once, in the order of a stable sort.
pub open spec fn is_stable_order<K: Ranked>(keys: Seq<K>, order: Seq<usize>) -> bool {
    &&& order.len() == keys.len()
    &&& forall|p: int| 0 <= p < order.len() ==> 0 <= #[trigger] order[p] < keys.len()
    &&& forall|p: int, q: int|
        0 <= p < q < order.len() ==> #[trigger] goes_before(
            keys,
            order[p] as int,
            order[q] as int,
        )
}

/// The items of `items` in the given order of positions.
pub open spec fn arranged<T>(items: Seq<T>, order: Seq<usize>) -> Seq<T> {
    order.map_values(|i: usize| items[i as int])
}

proof fn lemma_goes_before_trans<K: Ranked>(keys: Seq<K>, i: int, j: int, k: int)
    requires
        goes_before(keys, i, j),
        goes_before(keys, j, k),
    ensures
        goes_before(keys, i, k),
{
    K::key_le_transitive(keys[i], keys[j], keys[k]);
    if keys[k].key_le(keys[i]) {
        K::key_le_transitive(keys[k], keys[i], keys[j]);
        K::key_le_transitive(keys[j], keys[k], keys[i]);
    }
}

proof fn lemma_goes_before_prefix<K: Ranked>(keys: Seq<K>, n: int, i: int, j: int)
    requires
        0 <= n <= keys.len(),
        0 <= i < n,
        0 <= j < n,
    ensures
        goes_before(keys.take(n), i, j) == goes_before(keys, i, j),
{
}

/// The stable order of `keys`.
pub fn stable_order<K: SortKey>(keys: &Vec<K>) -> (order: Vec<usize>)
    ensures
        is_stable_order(key_ranks(keys@), order@),
{
    let ghost ranks = key_ranks(keys@);
    let mut order: Vec<usize> = Vec::new();
    let mut n: usize = 0;
    while n < keys.len()
        invariant
            n <= keys.len(),
            ranks == key_ranks(keys@),
            is_stable_order(ranks.take(n as int), order@),
        decreases keys.len() - n,
    {
        let ghost before = order@;
        let mut at: usize = order.len();
        while at > 0 && !keys[order[at - 1]].not_after(&keys[n])
            invariant
                n < keys.len(),
                ranks == key_ranks(keys@),
                order@ == before,
                before.len() == n,
                at <= n,
                is_stable_order(ranks.take(n as int), before),
                forall|p: int|
                    at <= p < n ==> !ranks[#[trigger] before[p] as int].key_le(ranks[n as int]),
            decreases at,
        {
            assert(before[at - 1] < n);
            assert(ranks[before[at - 1] as int] == keys@[before[at - 1] as int].key_rank());
            assert(ranks[n as int] == keys@[n as int].key_rank());
            at = at - 1;
        }
        order.insert(at, n);
        proof {
            if at > 0 {
                assert(before[at - 1] < n);
                assert(ranks[before[at - 1] as int] == keys@[before[at - 1] as int].key_rank());
                assert(ranks[n as int] == keys@[n as int].key_rank());
            }
            lemma_inserted_in_order(ranks, n as int, before, at as int, n);
            assert(order@ == before.insert(at as int, n));
        }
        n = n + 1;
    }
    assert(ranks.take(ranks.len() as int) == ranks);
    order
}

/// Position `n` may be put into the stable order of the positions before it behind the last one
/// that does not come after it.
proof fn lemma_inserted_in_order<K: Ranked>(
    keys: Seq<K>,
    n: int,
    before: Seq<usize>,
    at: int,
    position: usize,
)
    requires
        0 <= at <= n < keys.len(),
        position == n,
        is_stable_order(keys.take(n), before),
        at > 0 ==> keys[before[at - 1] as int].key_le(keys[n]),
        forall|p: int| at <= p < n ==> !keys[#[trigger] before[p] as int].key_le(keys[n]),
    ensures
        is_stable_order(keys.take(n + 1), before.insert(at, position)),
{
    let shorter = keys.take(n);
    let longer = keys.take(n + 1);
    let order = before.insert(at, position);
    assert forall|p: int| 0 <= p < n implies #[trigger] before[p] < n by {}
    assert forall|p: int| at <= p < n implies #[trigger] goes_before(
        keys,
        n,
        before[p] as int,
    ) by {
        K::key_le_total(keys[before[p] as int], keys[n]);
    }
    assert forall|p: int| 0 <= p < at implies #[trigger] goes_before(
        keys,
        before[p] as int,
        n,
    ) by {
        let last = before[at - 1] as int;
        assert(goes_before(keys, last, n));
        if p < at - 1 {
            assert(goes_before(shorter, before[p] as int, before[at - 1] as int));
            lemma_goes_before_prefix(keys, n, before[p] as int, last);
            lemma_goes_before_trans(keys, before[p] as int, last, n);
        }
    }
    assert forall|p: int, q: int| 0 <= p < q < order.len() implies #[trigger] goes_before(
        longer,
        order[p] as int,
        order[q] as int,
    ) by {
        lemma_goes_before_prefix(keys, n + 1, order[p] as int, order[q] as int);
        if p == at {
            assert(goes_before(keys, n, before[q - 1] as int));
        } else if q == at {
            assert(goes_before(keys, before[p] as int, n));
        } else {
            let i = if p < at { p } else { p - 1 };
            let j = if q < at { q } else { q - 1 };
            assert(goes_before(shorter, before[i] as int, before[j] as int));
            lemma_goes_before_prefix(keys, n, before[i] as int, before[j] as int);
        }
    }
}

/// A stable order leaves no position out.
pub proof fn stable_order_is_complete<K: Ranked>(keys: Seq<K>, order: Seq<usize>, i: usize)
    requires
        is_stable_order(keys, order),
        i < keys.len(),
    ensures
        order.contains(i),
{
    let wide = order.map_values(|x: usize| x as int);
    assert forall|p: int, q: int| 0 <= p < q < wide.len() implies wide[p] != wide[q] by {
        assert(goes_before(keys, order[p] as int, order[q] as int));
    }
    wide.unique_seq_to_set();
    let all = vstd::set_lib::set_int_range(0, keys.len() as int);
    vstd::set_lib::lemma_int_range(0, keys.len() as int);
    assert forall|x: int| wide.to_set().contains(x) implies all.contains(x) by {
        let p = choose|p: int| 0 <= p < wide.len() && wide[p] == x;
        assert(0 <= order[p] < keys.len());
    }
    vstd::set_lib::lemma_subset_equality(wide.to_set(), all);
    assert(all.contains(i as int));
    let p = choose|p: int| 0 <= p < wide.len() && wide[p] == i as int;
    assert(order[p] == i);
}

/// A list has one stable order only.
pub proof fn stable_order_is_unique<K: Ranked>(keys: Seq<K>, one: Seq<usize>, two: Seq<usize>)
    requires
        is_stable_order(keys, one),
        is_stable_order(keys, two),
    ensures
        one == two,
{
    lemma_stable_orders_agree(keys, one, two, keys.len());
    assert(one =~= two);
}

proof fn lemma_stable_orders_agree<K: Ranked>(
    keys: Seq<K>,
    one: Seq<usize>,
    two: Seq<usize>,
    n: nat,
)
    requires
        is_stable_order(keys, one),
        is_stable_order(keys, two),
        n <= keys.len(),
    ensures
        forall|p: int| 0 <= p < n ==> one[p] == two[p],
    decreases n,
{
    if n > 0 {
        lemma_stable_orders_agree(keys, one, two, (n - 1) as nat);
        let last = n - 1;
        if one[last] != two[last] {
            stable_order_is_complete(keys, one, two[last]);
            stable_order_is_complete(keys, two, one[last]);
            let q = choose|q: int| 0 <= q < one.len() && one[q] == two[last];
            let r = choose|r: int| 0 <= r < two.len() && two[r] == one[last];
            if q < last {
                assert(goes_before(keys, two[q] as int, two[last] as int));
            }
            if r < last {
                assert(goes_before(keys, one[r] as int, one[last] as int));
            }
            assert(goes_before(keys, one[last] as int, one[q] as int));
            assert(goes_before(keys, two[last] as int, two[r] as int));
        }
    }
}

/// A list that is in order already stays as it is.
pub proof fn sorted_list_is_kept<K: Ranked, T>(keys: Seq<K>, order: Seq<usize>, items: Seq<T>)
    requires
        is_stable_order(keys, order),
        items.len() == keys.len(),
        keys.len() <= usize::MAX,
        forall|i: int, j: int|
            #![trigger keys[i], keys[j]]
            0 <= i < j < keys.len() ==> keys[i].key_le(keys[j]),
    ensures
        arranged(items, order) == items,
{
    let same = Seq::new(keys.len(), |i: int| i as usize);
    assert forall|p: int, q: int| 0 <= p < q < same.len() implies #[trigger] goes_before(
        keys,
        same[p] as int,
        same[q] as int,
    ) by {
        assert(keys[p].key_le(keys[q]));
    }
    assert(is_stable_order(keys, same));
    stable_order_is_unique(keys, order, same);
    assert(arranged(items, order) =~= items);
}

/// Texts are ordered by the first character in which they differ; where one is the beginning of the
/// other, it comes first.
pub proof fn texts_order_by_the_first_difference(a: Seq<char>, b: Seq<char>)
    ensures
        text_le(a, b) <==> {
            ||| a.len() <= b.len() && forall|k: int| 0 <= k < a.len() ==> #[trigger] a[k] == b[k]
            ||| exists|i: int|
                {
                    &&& 0 <= i < a.len()
                    &&& i < b.len()
                    &&& #[trigger] a[i] < b[i]
                    &&& forall|k: int| 0 <= k < i ==> #[trigger] a[k] == b[k]
                }
        },
    decreases a.len(),
{
    if a.len() > 0 && b.len() > 0 && a[0] == b[0] {
        let x = a.drop_first();
        let y = b.drop_first();
        texts_order_by_the_first_difference(x, y);
        if text_le(x, y) {
            if x.len() <= y.len() && forall|k: int| 0 <= k < x.len() ==> #[trigger] x[k] == y[k] {
                assert forall|k: int| 0 <= k < a.len() implies #[trigger] a[k] == b[k] by {
                    if k > 0 {
                        assert(x[k - 1] == y[k - 1]);
                    }
                }
            } else {
                let i = choose|i: int|
                    {
                        &&& 0 <= i < x.len()
                        &&& i < y.len()
                        &&& #[trigger] x[i] < y[i]
                        &&& forall|k: int| 0 <= k < i ==> #[trigger] x[k] == y[k]
                    };
                assert forall|k: int| 0 <= k < i + 1 implies #[trigger] a[k] == b[k] by {
                    if k > 0 {
                        assert(x[k - 1] == y[k - 1]);
                    }
                }
                assert(a[i + 1] < b[i + 1]);
            }
        } else {
            if a.len() <= b.len() && forall|k: int| 0 <= k < a.len() ==> #[trigger] a[k] == b[k] {
                assert forall|k: int| 0 <= k < x.len() implies #[trigger] x[k] == y[k] by {
                    assert(a[k + 1] == b[k + 1]);
                }
            }
            if exists|i: int|
                {
                    &&& 0 <= i < a.len()
                    &&& i < b.len()
                    &&& #[trigger] a[i] < b[i]
                    &&& forall|k: int| 0 <= k < i ==> #[trigger] a[k] == b[k]
                } {
                let i = choose|i: int|
                    {
                        &&& 0 <= i < a.len()
                        &&& i < b.len()
                        &&& #[trigger] a[i] < b[i]
                        &&& forall|k: int| 0 <= k < i ==> #[trigger] a[k] == b[k]
                    };
                assert forall|k: int| 0 <= k < i - 1 implies #[trigger] x[k] == y[k] by {
                    assert(a[k + 1] == b[k + 1]);
                }
                assert(x[i - 1] < y[i - 1]);
            }
        }
    } else if a.len() > 0 && b.len() > 0 {
        if a[0] < b[0] {
            assert(a[0] < b[0]);
        } else {
            assert forall|i: int|
                {
                    &&& 0 <= i < a.len()
                    &&& i < b.len()
                    &&& #[trigger] a[i] < b[i]
                    &&& forall|k: int| 0 <= k < i ==> #[trigger] a[k] == b[k]
                } implies false by {
                if i > 0 {
                    assert(a[0] == b[0]);
                }
            }
        }
    }
}

/// An order of numbers lists every position once, the smallest number first, and of equal numbers the
/// one that stood first.
pub proof fn numbers_come_out_smallest_first(keys: Seq<i64>, order: Seq<usize>)
    ensures
        is_stable_order(keys, order) <==> {
            &&& order.len() == keys.len()
            &&& forall|p: int| 0 <= p < order.len() ==> #[trigger] order[p] < keys.len()
            &&& forall|p: int, q: int|
                #![trigger order[p], order[q]]
                0 <= p < q < order.len() ==> {
                    ||| keys[order[p] as int] < keys[order[q] as int]
                    ||| keys[order[p] as int] == keys[order[q] as int] && order[p] < order[q]
                }
        },
{
    if is_stable_order(keys, order) {
        assert forall|p: int, q: int|
            #![trigger order[p], order[q]]
            0 <= p < q < order.len() implies {
            ||| keys[order[p] as int] < keys[order[q] as int]
            ||| keys[order[p] as int] == keys[order[q] as int] && order[p] < order[q]
        } by {
            assert(goes_before(keys, order[p] as int, order[q] as int));
        }
    }
}

/// An order of texts lists every position once, the first text in the order of texts first, and of
/// equal texts the one that stood first.
pub proof fn texts_come_out_in_order(keys: Seq<Seq<char>>, order: Seq<usize>)
    requires
        is_stable_order(keys, order),
    ensures
        order.len() == keys.len(),
        forall|p: int| 0 <= p < order.len() ==> #[trigger] order[p] < keys.len(),
        forall|p: int, q: int|
            #![trigger order[p], order[q]]
            0 <= p < q < order.len() ==> {
                &&& text_le(keys[order[p] as int], keys[order[q] as int])
                &&& keys[order[p] as int] == keys[order[q] as int] ==> order[p] < order[q]
            },
{
    assert forall|p: int, q: int|
        #![trigger order[p], order[q]]
        0 <= p < q < order.len() implies {
        &&& text_le(keys[order[p] as int], keys[order[q] as int])
        &&& keys[order[p] as int] == keys[order[q] as int] ==> order[p] < order[q]
    } by {
        assert(goes_before(keys, order[p] as int, order[q] as int));
    }
}

/// Numbers are sorted by what they are, and texts by their characters.
pub proof fn keys_are_compared_by_what_they_are(
    numbers: Seq<i64>,
    texts: Seq<Vec<char>>,
    i: int,
    j: int,
)
    requires
        0 <= i < numbers.len(),
        0 <= j < texts.len(),
    ensures
        key_ranks(numbers).len() == numbers.len(),
        key_ranks(numbers)[i] == numbers[i],
        key_ranks(texts).len() == texts.len(),
        key_ranks(texts)[j] == texts[j]@,
{
}

/// Arranging puts at each place the item whose position the order names there.
pub proof fn arranging_follows_the_order<T>(items: Seq<T>, order: Seq<usize>, p: int)
    requires
        0 <= p < order.len(),
    ensures
        arranged(items, order).len() == order.len(),
        arranged(items, order)[p] == items[order[p] as int],
{
}

} // verus!
