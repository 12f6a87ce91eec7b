//! A stable sort by key, ascending or descending.

use vstd::prelude::*;

verus! {

/// What items are ordered by. An absent key is the smallest, a number is
/// smaller than any text, numbers go by value and texts character by
/// character.
#[derive(Debug)]
pub enum SortKey {
    Absent,
    Number(i128),
    Text(Vec<char>),
}

/// A `SortKey` as plain values.
pub enum SortKeyView {
    Absent,
    Number(int),
    Text(Seq<char>),
}

impl View for SortKey {
    type V = SortKeyView;

    open spec fn view(&self) -> SortKeyView {
        match self {
            SortKey::Absent => SortKeyView::Absent,
            SortKey::Number(n) => SortKeyView::Number(*n as int),
            SortKey::Text(t) => SortKeyView::Text(t@),
        }
    }
}

/// Whether `a` is at most `b` in lexicographic order: a proper prefix is
/// smaller, and the first characters that differ decide otherwise.
pub open spec fn text_le(a: Seq<char>, b: Seq<char>) -> bool
    decreases a.len(),
{
    if a.len() == 0 {
        true
    } else if b.len() == 0 {
        false
    } else if a[0] != b[0] {
        (a[0] as u32) < (b[0] as u32)
    } else {
        text_le(a.drop_first(), b.drop_first())
    }
}

/// Whether the key `a` is at most the key `b`.
pub open spec fn key_le(a: SortKeyView, b: SortKeyView) -> bool {
    match (a, b) {
        (SortKeyView::Absent, _) => true,
        (SortKeyView::Number(_), SortKeyView::Absent) => false,
        (SortKeyView::Number(x), SortKeyView::Number(y)) => x <= y,
        (SortKeyView::Number(_), SortKeyView::Text(_)) => true,
        (SortKeyView::Text(x), SortKeyView::Text(y)) => text_le(x, y),
        (SortKeyView::Text(_), _) => false,
    }
}

/// Whether an item with key `a` may stand before one with key `b`.
pub open spec fn in_order(a: SortKeyView, b: SortKeyView, descending: bool) -> bool {
    if descending {
        key_le(b, a)
    } else {
        key_le(a, b)
    }
}

/// `x` put into the sorted sequence `sorted`: behind every item that may
/// stand before it, so behind the items of equal key.
pub open spec fn insert_keyed<T>(
    sorted: Seq<(SortKeyView, T)>,
    x: (SortKeyView, T),
    descending: bool,
) -> Seq<(SortKeyView, T)>
    decreases sorted.len(),
{
    if sorted.len() == 0 {
        seq![x]
    } else if in_order(sorted.last().0, x.0, descending) {
        sorted.push(x)
    } else {
        insert_keyed(sorted.drop_last(), x, descending).push(sorted.last())
    }
}

/// `items` sorted by key; items of equal key keep their order.
pub open spec fn sort_keyed<T>(items: Seq<(SortKeyView, T)>, descending: bool) -> Seq<
    (SortKeyView, T),
>
    decreases items.len(),
{
    if items.len() == 0 {
        Seq::empty()
    } else {
        insert_keyed(sort_keyed(items.drop_last(), descending), items.last(), descending)
    }
}

/// The items of `s` with their keys as plain values.
pub open spec fn keyed<T>(s: Seq<(SortKey, T)>) -> Seq<(SortKeyView, T)> {
    Seq::new(s.len(), |i: int| (s[i].0@, s[i].1))
}

/// The items of `s` without their keys.
pub open spec fn values<T>(s: Seq<(SortKeyView, T)>) -> Seq<T> {
    Seq::new(s.len(), |i: int| s[i].1)
}

/// Compares two texts.
pub fn text_le_exec(a: &Vec<char>, b: &Vec<char>) -> (r: bool)
    ensures
        r == text_le(a@, b@),
{
    let mut i: usize = 0;
    assert(a@.skip(0) =~= a@ && b@.skip(0) =~= b@);
    while i < a.len() && i < b.len() && a[i] == b[i]
        invariant
            i <= a.len(),
            i <= b.len(),
            text_le(a@, b@) == text_le(a@.skip(i as int), b@.skip(i as int)),
        decreases a.len() - i,
    {
        assert(a@.skip(i as int).drop_first() =~= a@.skip(i + 1));
        assert(b@.skip(i as int).drop_first() =~= b@.skip(i + 1));
        i += 1;
    }
    if i >= a.len() {
        true
    } else if i >= b.len() {
        false
    } else {
        (a[i] as u32) < (b[i] as u32)
    }
}

/// Compares two keys.
pub fn key_le_exec(a: &SortKey, b: &SortKey) -> (r: bool)
    ensures
        r == key_le(a@, b@),
{
    match a {
        SortKey::Absent => true,
        SortKey::Number(x) => match b {
            SortKey::Absent => false,
            SortKey::Number(y) => *x <= *y,
            SortKey::Text(_) => true,
        },
        SortKey::Text(x) => match b {
            SortKey::Text(y) => text_le_exec(x, y),
            _ => false,
        },
    }
}

/// Whether an item with key `a` may stand before one with key `b`.
pub fn in_order_exec(a: &SortKey, b: &SortKey, descending: bool) -> (r: bool)
    ensures
        r == in_order(a@, b@, descending),
{
    if descending {
        key_le_exec(b, a)
    } else {
        key_le_exec(a, b)
    }
}

/// Sorts `items` by their keys, ascending or descending, and hands back the
/// items without the keys. Items of equal key keep their order.
pub fn sort_by_key<T>(items: Vec<(SortKey, T)>, descending: bool) -> (r: Vec<T>)
    ensures
        r@ == values(sort_keyed(keyed(items@), descending)),
{
    let ghost all = items@;
    let mut out: Vec<(SortKey, T)> = Vec::new();
    assert(keyed(all.take(0)) =~= Seq::<(SortKeyView, T)>::empty());
    for item in it: items
        invariant
            it.seq() == all,
            keyed(out@) == sort_keyed(keyed(all.take(it.index() as int)), descending),
    {
        let ghost x = (item.0@, item.1);
        let ghost before = keyed(out@);
        let mut j: usize = out.len();
        assert(before.take(j as int) =~= before && before.skip(j as int) =~= Seq::<
            (SortKeyView, T),
        >::empty());
        while j > 0 && !in_order_exec(&out[j - 1].0, &item.0, descending)
            invariant
                j <= out.len(),
                before == keyed(out@),
                x == (item.0@, item.1),
                insert_keyed(before, x, descending) == insert_keyed(
                    before.take(j as int),
                    x,
                    descending,
                ) + before.skip(j as int),
            decreases j,
        {
            assert(before.take(j as int).drop_last() =~= before.take(j - 1));
            assert(insert_keyed(before.take(j - 1), x, descending).push(before[j - 1])
                + before.skip(j as int) =~= insert_keyed(before.take(j - 1), x, descending)
                + before.skip(j - 1));
            j -= 1;
        }
        proof {
            if j > 0 {
                assert(before.take(j as int).last() == before[j - 1]);
            }
            assert(insert_keyed(before.take(j as int), x, descending) =~= before.take(
                j as int,
            ).push(x));
            let k = it.index() as int;
            assert(keyed(all.take(k + 1)).drop_last() =~= keyed(all.take(k)));
            assert(keyed(all.take(k + 1)).last() == x);
        }
        out.insert(j, item);
        assert(keyed(out@) =~= before.take(j as int).push(x) + before.skip(j as int));
    }
    assert(all.take(all.len() as int) =~= all);
    let ghost sorted = keyed(out@);
    let mut r: Vec<T> = Vec::new();
    for pair in it: out
        invariant
            keyed(it.seq()) == sorted,
            r@ == values(sorted).take(it.index() as int),
    {
        let ghost k = it.index() as int;
        r.push(pair.1);
        assert(r@ =~= values(sorted).take(k + 1));
    }
    assert(values(sorted).take(sorted.len() as int) =~= values(sorted));
    r
}


/// The items of `s` with `f` applied to each, keys unchanged.
pub open spec fn map_items<T, U>(s: Seq<(SortKeyView, T)>, f: spec_fn(T) -> U) -> Seq<
    (SortKeyView, U),
> {
    Seq::new(s.len(), |i: int| (s[i].0, f(s[i].1)))
}

/// Inserting does not look at the items, only at the keys.
pub proof fn lemma_insert_keyed_map<T, U>(
    sorted: Seq<(SortKeyView, T)>,
    x: (SortKeyView, T),
    f: spec_fn(T) -> U,
    descending: bool,
)
    ensures
        insert_keyed(map_items(sorted, f), (x.0, f(x.1)), descending) == map_items(
            insert_keyed(sorted, x, descending),
            f,
        ),
    decreases sorted.len(),
{
    let m = map_items(sorted, f);
    let y = (x.0, f(x.1));
    if sorted.len() == 0 {
        assert(insert_keyed(m, y, descending) =~= map_items(seq![x], f));
    } else if in_order(sorted.last().0, x.0, descending) {
        assert(m.push(y) =~= map_items(sorted.push(x), f));
    } else {
        lemma_insert_keyed_map(sorted.drop_last(), x, f, descending);
        assert(m.drop_last() =~= map_items(sorted.drop_last(), f));
        assert(map_items(insert_keyed(sorted.drop_last(), x, descending), f).push(m.last())
            =~= map_items(insert_keyed(sorted.drop_last(), x, descending).push(sorted.last()), f));
    }
}

/// Sorting does not look at the items, only at the keys.
pub proof fn lemma_sort_keyed_map<T, U>(
    items: Seq<(SortKeyView, T)>,
    f: spec_fn(T) -> U,
    descending: bool,
)
    ensures
        sort_keyed(map_items(items, f), descending) == map_items(
            sort_keyed(items, descending),
            f,
        ),
    decreases items.len(),
{
    let m = map_items(items, f);
    if items.len() == 0 {
        assert(sort_keyed(m, descending) =~= map_items(sort_keyed(items, descending), f));
    } else {
        lemma_sort_keyed_map(items.drop_last(), f, descending);
        assert(m.drop_last() =~= map_items(items.drop_last(), f));
        lemma_insert_keyed_map(
            sort_keyed(items.drop_last(), descending),
            items.last(),
            f,
            descending,
        );
    }
}


/// Of two texts one is at most the other.
pub proof fn lemma_text_le_total(a: Seq<char>, b: Seq<char>)
    ensures
        text_le(a, b) || text_le(b, a),
    decreases a.len(),
{
    if a.len() > 0 && b.len() > 0 {
        if a[0] == b[0] {
            lemma_text_le_total(a.drop_first(), b.drop_first());
        } else {
            vstd::utf8::char_u32_cast(a[0], a[0] as u32);
            vstd::utf8::char_u32_cast(b[0], b[0] as u32);
        }
    }
}

/// Two texts of which each is at most the other are the same text.
pub proof fn lemma_text_le_antisymmetric(a: Seq<char>, b: Seq<char>)
    requires
        text_le(a, b),
        text_le(b, a),
    ensures
        a == b,
    decreases a.len(),
{
    if a.len() == 0 || b.len() == 0 {
        assert(a =~= b);
    } else {
        lemma_text_le_antisymmetric(a.drop_first(), b.drop_first());
        assert(a =~= seq![a[0]] + a.drop_first());
        assert(b =~= seq![b[0]] + b.drop_first());
    }
}

/// The order of texts is transitive.
pub proof fn lemma_text_le_transitive(a: Seq<char>, b: Seq<char>, c: Seq<char>)
    requires
        text_le(a, b),
        text_le(b, c),
    ensures
        text_le(a, c),
    decreases a.len(),
{
    if a.len() > 0 && b.len() > 0 && c.len() > 0 && a[0] == b[0] && b[0] == c[0] {
        lemma_text_le_transitive(a.drop_first(), b.drop_first(), c.drop_first());
    }
}

/// Of two keys one is at most the other.
pub proof fn lemma_key_le_total(a: SortKeyView, b: SortKeyView)
    ensures
        key_le(a, b) || key_le(b, a),
{
    if let (SortKeyView::Text(x), SortKeyView::Text(y)) = (a, b) {
        lemma_text_le_total(x, y);
    }
}

/// Two keys of which each is at most the other are the same key.
pub proof fn lemma_key_le_antisymmetric(a: SortKeyView, b: SortKeyView)
    requires
        key_le(a, b),
        key_le(b, a),
    ensures
        a == b,
{
    if let (SortKeyView::Text(x), SortKeyView::Text(y)) = (a, b) {
        lemma_text_le_antisymmetric(x, y);
    }
}

/// The order of keys is transitive.
pub proof fn lemma_key_le_transitive(a: SortKeyView, b: SortKeyView, c: SortKeyView)
    requires
        key_le(a, b),
        key_le(b, c),
    ensures
        key_le(a, c),
{
    if let (SortKeyView::Text(x), SortKeyView::Text(y), SortKeyView::Text(z)) = (a, b, c) {
        lemma_text_le_transitive(x, y, z);
    }
}

/// Whether every item of `s` may stand before all that follow it.
pub open spec fn is_sorted<T>(s: Seq<(SortKeyView, T)>, descending: bool) -> bool {
    forall|i: int, j: int| 0 <= i < j < s.len() ==> in_order(s[i].0, s[j].0, descending)
}

/// Inserting into a sorted sequence keeps it sorted, and adds the one item
/// and nothing else.
pub proof fn lemma_insert_keyed<T>(sorted: Seq<(SortKeyView, T)>, x: (SortKeyView, T), descending: bool)
    requires
        is_sorted(sorted, descending),
    ensures
        is_sorted(insert_keyed(sorted, x, descending), descending),
        insert_keyed(sorted, x, descending).to_multiset() == sorted.to_multiset().insert(x),
        insert_keyed(sorted, x, descending).len() == sorted.len() + 1,
        forall|i: int|
            0 <= i < sorted.len() + 1 ==> #[trigger] insert_keyed(sorted, x, descending)[i] == x
                || sorted.contains(insert_keyed(sorted, x, descending)[i]),
    decreases sorted.len(),
{
    broadcast use vstd::seq_lib::to_multiset_build;

    let r = insert_keyed(sorted, x, descending);
    if sorted.len() == 0 {
        assert(sorted =~= Seq::empty());
        assert(r =~= Seq::<(SortKeyView, T)>::empty().push(x));
    } else if in_order(sorted.last().0, x.0, descending) {
        assert forall|i: int, j: int| 0 <= i < j < r.len() implies in_order(
            r[i].0,
            r[j].0,
            descending,
        ) by {
            if j == sorted.len() && i < sorted.len() - 1 {
                assert(in_order(sorted[i].0, sorted.last().0, descending));
                if descending {
                    lemma_key_le_transitive(x.0, sorted.last().0, sorted[i].0);
                } else {
                    lemma_key_le_transitive(sorted[i].0, sorted.last().0, x.0);
                }
            }
        }
        assert forall|i: int| 0 <= i < sorted.len() + 1 implies #[trigger] r[i] == x
            || sorted.contains(r[i]) by {
            if i < sorted.len() {
                assert(sorted[i] == r[i]);
            }
        }
    } else {
        let init = sorted.drop_last();
        let last = sorted.last();
        lemma_insert_keyed(init, x, descending);
        let q = insert_keyed(init, x, descending);
        assert(r == q.push(last));
        assert(init.push(last) =~= sorted);
        assert(r.to_multiset() =~= sorted.to_multiset().insert(x));
        lemma_key_le_total(last.0, x.0);
        assert(in_order(x.0, last.0, descending));
        assert forall|i: int, j: int| 0 <= i < j < r.len() implies in_order(
            r[i].0,
            r[j].0,
            descending,
        ) by {
            if j == q.len() {
                assert(r[i] == q[i]);
                if q[i] != x {
                    assert(init.contains(q[i]));
                    let k = choose|k: int| 0 <= k < init.len() && init[k] == q[i];
                    assert(sorted[k] == q[i]);
                    assert(in_order(sorted[k].0, sorted[sorted.len() - 1].0, descending));
                }
            } else {
                assert(r[i] == q[i] && r[j] == q[j]);
            }
        }
        assert forall|i: int| 0 <= i < sorted.len() + 1 implies #[trigger] r[i] == x
            || sorted.contains(r[i]) by {
            if i < q.len() {
                assert(r[i] == q[i]);
                if q[i] != x {
                    assert(init.contains(q[i]));
                    let k = choose|k: int| 0 <= k < init.len() && init[k] == q[i];
                    assert(sorted[k] == q[i]);
                }
            } else {
                assert(r[i] == sorted[sorted.len() - 1]);
            }
        }
    }
}

/// What sorting gives is sorted, and it holds the items that went in: each as
/// often as before, with the key it had.
pub proof fn lemma_sort_keyed<T>(items: Seq<(SortKeyView, T)>, descending: bool)
    ensures
        is_sorted(sort_keyed(items, descending), descending),
        sort_keyed(items, descending).to_multiset() == items.to_multiset(),
        sort_keyed(items, descending).len() == items.len(),
        forall|i: int|
            0 <= i < items.len() ==> items.contains(#[trigger] sort_keyed(items, descending)[i]),
    decreases items.len(),
{
    broadcast use vstd::seq_lib::to_multiset_build;

    if items.len() == 0 {
        assert(items =~= Seq::empty());
    } else {
        let init = items.drop_last();
        lemma_sort_keyed(init, descending);
        lemma_insert_keyed(sort_keyed(init, descending), items.last(), descending);
        assert(init.push(items.last()) =~= items);
        let r = sort_keyed(items, descending);
        assert forall|i: int| 0 <= i < items.len() implies items.contains(#[trigger] r[i]) by {
            if r[i] == items.last() {
                assert(items[items.len() - 1] == r[i]);
            } else {
                let s = sort_keyed(init, descending);
                assert(s.contains(r[i]));
                let k = choose|k: int| 0 <= k < s.len() && s[k] == r[i];
                assert(init.contains(s[k]));
                let m = choose|m: int| 0 <= m < init.len() && init[m] == s[k];
                assert(items[m] == r[i]);
            }
        }
    }
}


/// Inserting adds the one item to the items, keys left aside.
pub proof fn lemma_insert_keyed_values<T>(
    sorted: Seq<(SortKeyView, T)>,
    x: (SortKeyView, T),
    descending: bool,
)
    ensures
        values(insert_keyed(sorted, x, descending)).to_multiset() == values(
            sorted,
        ).to_multiset().insert(x.1),
    decreases sorted.len(),
{
    broadcast use vstd::seq_lib::to_multiset_build;

    let r = insert_keyed(sorted, x, descending);
    if sorted.len() == 0 {
        assert(values(r) =~= values(sorted).push(x.1));
    } else if in_order(sorted.last().0, x.0, descending) {
        assert(values(r) =~= values(sorted).push(x.1));
    } else {
        let init = sorted.drop_last();
        let q = insert_keyed(init, x, descending);
        lemma_insert_keyed_values(init, x, descending);
        assert(values(r) =~= values(q).push(sorted.last().1));
        assert(values(sorted) =~= values(init).push(sorted.last().1));
        assert(values(r).to_multiset() =~= values(sorted).to_multiset().insert(x.1));
    }
}

/// Sorting permutes the items.
pub proof fn lemma_sort_keyed_values<T>(items: Seq<(SortKeyView, T)>, descending: bool)
    ensures
        values(sort_keyed(items, descending)).to_multiset() == values(items).to_multiset(),
    decreases items.len(),
{
    broadcast use vstd::seq_lib::to_multiset_build;

    if items.len() == 0 {
        assert(values(sort_keyed(items, descending)) =~= values(items));
    } else {
        let init = items.drop_last();
        lemma_sort_keyed_values(init, descending);
        lemma_insert_keyed_values(sort_keyed(init, descending), items.last(), descending);
        assert(values(items) =~= values(init).push(items.last().1));
    }
}

/// The items of `s` whose key is `key`, in their order.
pub open spec fn with_key<T>(s: Seq<(SortKeyView, T)>, key: SortKeyView) -> Seq<(SortKeyView, T)>
    decreases s.len(),
{
    if s.len() == 0 {
        Seq::empty()
    } else if s.last().0 == key {
        with_key(s.drop_last(), key).push(s.last())
    } else {
        with_key(s.drop_last(), key)
    }
}

/// An inserted item comes behind the items of its own key, and the items of
/// every other key stay as they were.
pub proof fn lemma_insert_keyed_stable<T>(
    sorted: Seq<(SortKeyView, T)>,
    x: (SortKeyView, T),
    descending: bool,
    key: SortKeyView,
)
    ensures
        with_key(insert_keyed(sorted, x, descending), key) == if x.0 == key {
            with_key(sorted, key).push(x)
        } else {
            with_key(sorted, key)
        },
    decreases sorted.len(),
{
    let r = insert_keyed(sorted, x, descending);
    if sorted.len() == 0 {
        assert(r.drop_last() =~= sorted);
    } else if in_order(sorted.last().0, x.0, descending) {
        assert(r.drop_last() =~= sorted);
    } else {
        let q = insert_keyed(sorted.drop_last(), x, descending);
        lemma_insert_keyed_stable(sorted.drop_last(), x, descending, key);
        lemma_key_le_total(x.0, x.0);
        assert(sorted.last().0 != x.0);
        assert(r.drop_last() =~= q);
    }
}

/// Sorting is stable: the items of each key stand in the order in which they
/// went in.
pub proof fn lemma_sort_keyed_stable<T>(
    items: Seq<(SortKeyView, T)>,
    descending: bool,
    key: SortKeyView,
)
    ensures
        with_key(sort_keyed(items, descending), key) == with_key(items, key),
    decreases items.len(),
{
    if items.len() > 0 {
        lemma_sort_keyed_stable(items.drop_last(), descending, key);
        lemma_insert_keyed_stable(
            sort_keyed(items.drop_last(), descending),
            items.last(),
            descending,
            key,
        );
    }
}

} // verus!
