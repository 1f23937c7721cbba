//! The order of strings and stable sorting by a string key.

use crate::text::{chars_of, texts};
use vstd::prelude::*;

verus! {

/// Whether `a` comes before `b` in the order of strings: at the first place where they differ the
/// smaller character decides, and a proper prefix comes first.
pub open spec fn lex_less(a: Seq<char>, b: Seq<char>) -> bool
    decreases a.len(),
{
    if b.len() == 0 {
        false
    } else if a.len() == 0 {
        true
    } else if a[0] == b[0] {
        lex_less(a.drop_first(), b.drop_first())
    } else {
        a[0] < b[0]
    }
}

/// No string comes before itself.
pub proof fn lex_less_is_irreflexive(a: Seq<char>)
    ensures
        !lex_less(a, a),
    decreases a.len(),
{
    if a.len() > 0 {
        lex_less_is_irreflexive(a.drop_first());
    }
}

/// The order of strings is transitive.
pub proof fn lex_less_is_transitive(a: Seq<char>, b: Seq<char>, c: Seq<char>)
    requires
        lex_less(a, b),
        lex_less(b, c),
    ensures
        lex_less(a, c),
    decreases a.len(),
{
    if a.len() > 0 && a[0] == b[0] && b[0] == c[0] {
        lex_less_is_transitive(a.drop_first(), b.drop_first(), c.drop_first());
    }
}

/// Of two different strings one comes before the other.
pub proof fn lex_less_is_total(a: Seq<char>, b: Seq<char>)
    ensures
        a == b || lex_less(a, b) || lex_less(b, a),
    decreases a.len(),
{
    if a.len() > 0 && b.len() > 0 {
        if a[0] == b[0] {
            lex_less_is_total(a.drop_first(), b.drop_first());
            if a.drop_first() == b.drop_first() {
                assert(a =~= seq![a[0]] + a.drop_first());
                assert(b =~= seq![b[0]] + b.drop_first());
            }
        }
    } else {
        if a.len() == b.len() {
            assert(a =~= b);
        }
    }
}

/// Whether the text `a` comes before the text `b`.
pub fn precedes(a: &Vec<char>, b: &Vec<char>) -> (r: bool)
    ensures
        r == lex_less(a@, b@),
{
    let mut i: usize = 0;
    assert(a@.skip(0) =~= a@);
    assert(b@.skip(0) =~= b@);
    while i < a.len() && i < b.len() && a[i] == b[i]
        invariant
            i <= a@.len(),
            i <= b@.len(),
            lex_less(a@, b@) == lex_less(a@.skip(i as int), b@.skip(i as int)),
        decreases a@.len() - i,
    {
        assert(a@.skip(i as int).drop_first() =~= a@.skip(i + 1));
        assert(b@.skip(i as int).drop_first() =~= b@.skip(i + 1));
        i += 1;
    }
    if i == b.len() {
        false
    } else if i == a.len() {
        true
    } else {
        a[i] < b[i]
    }
}

/// Whether item `i` belongs before item `j` when items are sorted by `keys`, ascending or
/// descending, and items with equal keys keep their places.
pub open spec fn belongs_before(
    keys: Seq<Seq<char>>,
    descending: bool,
    i: int,
    j: int,
) -> bool {
    if keys[i] == keys[j] {
        i < j
    } else if descending {
        lex_less(keys[j], keys[i])
    } else {
        lex_less(keys[i], keys[j])
    }
}

/// Whether `order` lists the places of all of `keys` in the order of a stable sort.
pub open spec fn is_sorted_order(
    keys: Seq<Seq<char>>,
    descending: bool,
    order: Seq<usize>,
) -> bool {
    &&& order.len() == keys.len()
    &&& forall|a: int| 0 <= a < order.len() ==> 0 <= #[trigger] order[a] < keys.len()
    &&& forall|a: int, b: int|
        0 <= a < b < order.len() ==> belongs_before(
            keys,
            descending,
            #[trigger] order[a] as int,
            #[trigger] order[b] as int,
        )
}

/// The items at the places that `order` lists.
pub open spec fn arranged<T>(items: Seq<T>, order: Seq<usize>) -> Seq<T> {
    Seq::new(order.len(), |i: int| items[order[i] as int])
}

proof fn lemma_belongs_before(keys: Seq<Seq<char>>, descending: bool, i: int, j: int)
    ensures
        !(belongs_before(keys, descending, i, j) && belongs_before(keys, descending, j, i)),
        i != j ==> belongs_before(keys, descending, i, j) || belongs_before(
            keys,
            descending,
            j,
            i,
        ),
{
    lex_less_is_total(keys[i], keys[j]);
    lex_less_is_irreflexive(keys[i]);
    if lex_less(keys[i], keys[j]) && lex_less(keys[j], keys[i]) {
        lex_less_is_transitive(keys[i], keys[j], keys[i]);
    }
}

proof fn lemma_belongs_before_transitive(
    keys: Seq<Seq<char>>,
    descending: bool,
    i: int,
    j: int,
    k: int,
)
    requires
        belongs_before(keys, descending, i, j),
        belongs_before(keys, descending, j, k),
    ensures
        belongs_before(keys, descending, i, k),
{
    if keys[i] != keys[j] && keys[j] != keys[k] {
        if descending {
            lex_less_is_transitive(keys[k], keys[j], keys[i]);
            if keys[i] == keys[k] {
                lex_less_is_irreflexive(keys[i]);
            }
        } else {
            lex_less_is_transitive(keys[i], keys[j], keys[k]);
            if keys[i] == keys[k] {
                lex_less_is_irreflexive(keys[i]);
            }
        }
    }
}

/// Whether key `i` belongs before key `j`, where `i` is not `j`.
fn goes_before(keys: &Vec<Vec<char>>, descending: bool, i: usize, j: usize) -> (r: bool)
    requires
        i < j < keys@.len(),
    ensures
        r == belongs_before(Seq::new(keys@.len(), |k: int| keys@[k]@), descending, i as int, j as int),
{
    proof {
        lex_less_is_total(keys@[i as int]@, keys@[j as int]@);
        lex_less_is_irreflexive(keys@[i as int]@);
        if lex_less(keys@[i as int]@, keys@[j as int]@) && lex_less(keys@[j as int]@, keys@[i as int]@) {
            lex_less_is_transitive(keys@[i as int]@, keys@[j as int]@, keys@[i as int]@);
        }
    }
    if descending {
        !precedes(&keys[i], &keys[j])
    } else {
        !precedes(&keys[j], &keys[i])
    }
}

/// The places of `keys` in the order of a stable sort.
pub fn sorted_order(keys: &Vec<String>, descending: bool) -> (r: Vec<usize>)
    ensures
        is_sorted_order(texts(keys@), descending, r@),
{
    let n: usize = keys.len();
    let mut chars: Vec<Vec<char>> = Vec::new();
    let mut i: usize = 0;
    while i < n
        invariant
            i <= n == keys@.len(),
            chars@.len() == i,
            forall|j: int| 0 <= j < i ==> (#[trigger] chars@[j])@ == keys@[j]@,
        decreases n - i,
    {
        chars.push(chars_of(keys[i].as_str()));
        i += 1;
    }
    let ghost all = texts(keys@);
    assert(Seq::new(chars@.len(), |k: int| chars@[k]@) =~= all);
    let mut r: Vec<usize> = Vec::new();
    let mut k: usize = 0;
    while k < n
        invariant
            k <= n == keys@.len(),
            chars@.len() == n,
            all == texts(keys@),
            Seq::new(chars@.len(), |k: int| chars@[k]@) == all,
            r@.len() == k,
            forall|a: int| 0 <= a < r@.len() ==> 0 <= #[trigger] r@[a] < k,
            forall|a: int, b: int|
                0 <= a < b < r@.len() ==> belongs_before(
                    all,
                    descending,
                    #[trigger] r@[a] as int,
                    #[trigger] r@[b] as int,
                ),
        decreases n - k,
    {
        let mut low: usize = 0;
        let mut high: usize = k;
        while low < high
            invariant
                low <= high <= k < n == keys@.len(),
                chars@.len() == n,
                r@.len() == k,
                Seq::new(chars@.len(), |k: int| chars@[k]@) == all,
                forall|a: int| 0 <= a < r@.len() ==> 0 <= #[trigger] r@[a] < k,
                forall|a: int, b: int|
                    0 <= a < b < r@.len() ==> belongs_before(
                        all,
                        descending,
                        #[trigger] r@[a] as int,
                        #[trigger] r@[b] as int,
                    ),
                forall|a: int|
                    0 <= a < low ==> belongs_before(all, descending, #[trigger] r@[a] as int, k as int),
                forall|a: int|
                    high <= a < k ==> belongs_before(all, descending, k as int, #[trigger] r@[a] as int),
            decreases high - low,
        {
            let middle: usize = low + (high - low) / 2;
            if goes_before(&chars, descending, r[middle], k) {
                assert forall|a: int| 0 <= a < middle + 1 implies belongs_before(
                    all,
                    descending,
                    #[trigger] r@[a] as int,
                    k as int,
                ) by {
                    if a < middle {
                        lemma_belongs_before_transitive(
                            all,
                            descending,
                            r@[a] as int,
                            r@[middle as int] as int,
                            k as int,
                        );
                    }
                }
                low = middle + 1;
            } else {
                proof {
                    lemma_belongs_before(all, descending, r@[middle as int] as int, k as int);
                }
                assert forall|a: int| middle <= a < k implies belongs_before(
                    all,
                    descending,
                    k as int,
                    #[trigger] r@[a] as int,
                ) by {
                    if a > middle {
                        lemma_belongs_before_transitive(
                            all,
                            descending,
                            k as int,
                            r@[middle as int] as int,
                            r@[a] as int,
                        );
                    }
                }
                high = middle;
            }
        }
        let ghost before = r@;
        r.insert(low, k);
        assert forall|a: int, b: int| 0 <= a < b < r@.len() implies belongs_before(
            all,
            descending,
            #[trigger] r@[a] as int,
            #[trigger] r@[b] as int,
        ) by {
            let x = if a < low { a } else { a - 1 };
            let y = if b < low { b } else { b - 1 };
            if a != low {
                assert(r@[a] == before[x]);
            }
            if b != low {
                assert(r@[b] == before[y]);
            }
        }
        assert forall|a: int| 0 <= a < r@.len() implies 0 <= #[trigger] r@[a] < k + 1 by {
            if a < low {
                assert(r@[a] == before[a]);
            } else if a > low {
                assert(r@[a] == before[a - 1]);
            }
        }
        k += 1;
    }
    r
}

/// A sorted order lists every place once.
pub proof fn sorted_order_lists_every_place(
    keys: Seq<Seq<char>>,
    descending: bool,
    order: Seq<usize>,
    i: usize,
)
    requires
        is_sorted_order(keys, descending, order),
        0 <= i < keys.len(),
    ensures
        order.contains(i),
        order.no_duplicates(),
{
    let n = keys.len() as int;
    let places = order.map_values(|x: usize| x as int);
    assert forall|a: int, b: int| 0 <= a < b < order.len() implies order[a] != order[b] by {
        lemma_belongs_before(keys, descending, order[a] as int, order[b] as int);
    }
    assert(places.no_duplicates());
    places.unique_seq_to_set();
    vstd::seq_lib::seq_to_set_is_finite(places);
    vstd::set_lib::lemma_int_range(0, n);
    let all = vstd::set_lib::set_int_range(0, n);
    assert forall|x: int| places.to_set().contains(x) implies all.contains(x) by {
        let a = choose|a: int| 0 <= a < places.len() && places[a] == x;
        assert(0 <= order[a] < keys.len());
    }
    vstd::set_lib::lemma_subset_equality(places.to_set(), all);
    assert(all.contains(i as int));
    let a = choose|a: int| 0 <= a < places.len() && places[a] == i as int;
    assert(order[a] == i);
}

proof fn lemma_sorted_order_prefix(
    keys: Seq<Seq<char>>,
    descending: bool,
    first: Seq<usize>,
    second: Seq<usize>,
    k: int,
)
    requires
        is_sorted_order(keys, descending, first),
        is_sorted_order(keys, descending, second),
        0 <= k <= keys.len(),
    ensures
        first.take(k) == second.take(k),
    decreases k,
{
    if k > 0 {
        lemma_sorted_order_prefix(keys, descending, first, second, k - 1);
        let x = first[k - 1];
        let y = second[k - 1];
        assert forall|a: int| 0 <= a < k - 1 implies first[a] == second[a] by {
            assert(first.take(k - 1)[a] == second.take(k - 1)[a]);
        }
        if x != y {
            sorted_order_lists_every_place(keys, descending, first, y);
            sorted_order_lists_every_place(keys, descending, second, x);
            let p = choose|p: int| 0 <= p < first.len() && first[p] == y;
            let q = choose|q: int| 0 <= q < second.len() && second[q] == x;
            assert(p > k - 1) by {
                if p < k - 1 {
                    assert(second[p] == y);
                }
            }
            assert(q > k - 1) by {
                if q < k - 1 {
                    assert(first[q] == x);
                }
            }
            assert(belongs_before(keys, descending, first[k - 1] as int, first[p] as int));
            assert(belongs_before(keys, descending, second[k - 1] as int, second[q] as int));
            lemma_belongs_before(keys, descending, x as int, y as int);
        }
        assert(first.take(k) =~= second.take(k));
    } else {
        assert(first.take(0) =~= second.take(0));
    }
}

/// There is only one sorted order.
pub proof fn sorted_order_is_unique(
    keys: Seq<Seq<char>>,
    descending: bool,
    first: Seq<usize>,
    second: Seq<usize>,
)
    requires
        is_sorted_order(keys, descending, first),
        is_sorted_order(keys, descending, second),
    ensures
        first == second,
{
    lemma_sorted_order_prefix(keys, descending, first, second, keys.len() as int);
    assert(first.take(keys.len() as int) =~= first);
    assert(second.take(keys.len() as int) =~= second);
}

/// Strings are compared at the first place where they differ, by the characters there; where one
/// ends before they differ, it comes first.
pub proof fn first_difference_decides(common: Seq<char>, a: Seq<char>, b: Seq<char>)
    ensures
        a.len() > 0 && b.len() > 0 && a[0] != b[0] ==> (lex_less(common + a, common + b) <==> a[0]
            < b[0]),
        a.len() == 0 ==> (lex_less(common + a, common + b) <==> b.len() > 0),
        b.len() == 0 ==> !lex_less(common + a, common + b),
    decreases common.len(),
{
    if common.len() == 0 {
        assert(common + a =~= a);
        assert(common + b =~= b);
    } else {
        let rest = common.drop_first();
        assert((common + a).drop_first() =~= rest + a);
        assert((common + b).drop_first() =~= rest + b);
        assert((common + a)[0] == common[0] && (common + b)[0] == common[0]);
        first_difference_decides(rest, a, b);
    }
}

/// A sorted order goes up, or down, and leaves equal keys in the order in which they stood.
pub proof fn sorted_order_goes_one_way(
    keys: Seq<Seq<char>>,
    descending: bool,
    order: Seq<usize>,
    a: int,
    b: int,
)
    requires
        is_sorted_order(keys, descending, order),
        0 <= a < b < order.len(),
    ensures
        order.len() == keys.len(),
        order[a] < keys.len(),
        order[b] < keys.len(),
        keys[order[a] as int] == keys[order[b] as int] ==> order[a] < order[b],
        keys[order[a] as int] != keys[order[b] as int] && !descending ==> lex_less(
            keys[order[a] as int],
            keys[order[b] as int],
        ),
        keys[order[a] as int] != keys[order[b] as int] && descending ==> lex_less(
            keys[order[b] as int],
            keys[order[a] as int],
        ),
{
    assert(belongs_before(keys, descending, order[a] as int, order[b] as int));
}

} // verus!
