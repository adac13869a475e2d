//! Sums and first-appearance lists over the rows selected from a sequence,
//! and the lemmas that loops over such rows rest on.

use vstd::prelude::*;

use crate::text::{lemma_text_lt_total, lemma_text_lt_trans, text_less, text_lt};

verus! {

/// The sum of `val` over the elements of `data` that `sel` selects.
pub open spec fn sum_of<T>(data: Seq<T>, sel: spec_fn(T) -> bool, val: spec_fn(T) -> int) -> int
    decreases data.len(),
{
    if data.len() == 0 {
        0
    } else {
        sum_of(data.drop_last(), sel, val) + if sel(data.last()) {
            val(data.last())
        } else {
            0
        }
    }
}

/// The keys of the elements of `data` that `sel` selects, each once, in
/// the order in which they first appear.
pub open spec fn distinct_of<T>(
    data: Seq<T>,
    sel: spec_fn(T) -> bool,
    key: spec_fn(T) -> Seq<char>,
) -> Seq<Seq<char>>
    decreases data.len(),
{
    if data.len() == 0 {
        Seq::empty()
    } else {
        let before = distinct_of(data.drop_last(), sel, key);
        if sel(data.last()) && !before.contains(key(data.last())) {
            before.push(key(data.last()))
        } else {
            before
        }
    }
}

/// Selects every element.
pub open spec fn every<T>() -> spec_fn(T) -> bool {
    |x: T| true
}

/// The characters of each string, in order.
pub open spec fn views(v: Seq<String>) -> Seq<Seq<char>> {
    v.map_values(|s: String| s@)
}

/// One more element: the sum grows by its value where it is selected.
pub proof fn lemma_sum_step<T>(data: Seq<T>, j: int, sel: spec_fn(T) -> bool, val: spec_fn(T) -> int)
    requires
        0 <= j < data.len(),
    ensures
        sum_of(data.take(j + 1), sel, val) == sum_of(data.take(j), sel, val) + if sel(data[j]) {
            val(data[j])
        } else {
            0
        },
{
    assert(data.take(j + 1).drop_last() =~= data.take(j));
}

/// One more element: the key list grows by its key where it is selected
/// and new.
pub proof fn lemma_distinct_step<T>(
    data: Seq<T>,
    j: int,
    sel: spec_fn(T) -> bool,
    key: spec_fn(T) -> Seq<char>,
)
    requires
        0 <= j < data.len(),
    ensures
        distinct_of(data.take(j + 1), sel, key) == if sel(data[j]) && !distinct_of(
            data.take(j),
            sel,
            key,
        ).contains(key(data[j])) {
            distinct_of(data.take(j), sel, key).push(key(data[j]))
        } else {
            distinct_of(data.take(j), sel, key)
        },
{
    assert(data.take(j + 1).drop_last() =~= data.take(j));
}

/// A prefix of the whole sequence is the sequence.
pub proof fn lemma_take_all<T>(data: Seq<T>)
    ensures
        data.take(data.len() as int) == data,
{
    assert(data.take(data.len() as int) =~= data);
}

/// A key list holds each key once.
pub proof fn lemma_distinct_unique<T>(
    data: Seq<T>,
    sel: spec_fn(T) -> bool,
    key: spec_fn(T) -> Seq<char>,
)
    ensures
        distinct_of(data, sel, key).no_duplicates(),
    decreases data.len(),
{
    if data.len() > 0 {
        lemma_distinct_unique(data.drop_last(), sel, key);
    }
}

/// Whether `v` holds a string equal to `s`.
pub fn contains_string(v: &Vec<String>, s: &String) -> (res: bool)
    ensures
        res == views(v@).contains(s@),
{
    let mut i: usize = 0;
    while i < v.len()
        invariant
            0 <= i <= v@.len(),
            forall|k: int| 0 <= k < i ==> v@[k]@ != s@,
        decreases v.len() - i,
    {
        if v[i] == *s {
            assert(views(v@)[i as int] == s@);
            return true;
        }
        i = i + 1;
    }
    proof {
        if views(v@).contains(s@) {
            let k = choose|k: int| 0 <= k < views(v@).len() && views(v@)[k] == s@;
            assert(v@[k]@ == s@);
        }
    }
    false
}

/// Adds a copy of `s` to `v` unless `v` holds it already.
pub fn push_if_absent(v: &mut Vec<String>, s: &String)
    ensures
        views(final(v)@) == if views(old(v)@).contains(s@) {
            views(old(v)@)
        } else {
            views(old(v)@).push(s@)
        },
{
    if !contains_string(v, s) {
        v.push(s.clone());
        assert(views(v@) =~= views(old(v)@).push(s@));
    }
}

/// Rows that a narrower selection takes: where no row selected by `sel`
/// has the key `c`, a selection of rows with that key takes none.
pub proof fn lemma_absent_key<T>(
    data: Seq<T>,
    sel: spec_fn(T) -> bool,
    key: spec_fn(T) -> Seq<char>,
    c: Seq<char>,
    narrow: spec_fn(T) -> bool,
    val: spec_fn(T) -> int,
    key2: spec_fn(T) -> Seq<char>,
)
    requires
        forall|x: T| #[trigger] narrow(x) ==> sel(x) && key(x) == c,
        !distinct_of(data, sel, key).contains(c),
    ensures
        sum_of(data, narrow, val) == 0,
        distinct_of(data, narrow, key2).len() == 0,
    decreases data.len(),
{
    if data.len() > 0 {
        let before = distinct_of(data.drop_last(), sel, key);
        if sel(data.last()) && !before.contains(key(data.last())) {
            assert(distinct_of(data, sel, key) == before.push(key(data.last())));
            if before.contains(c) {
                let k = choose|k: int| 0 <= k < before.len() && before[k] == c;
                assert(before.push(key(data.last()))[k] == c);
            }
            assert(key(data.last()) != c || !narrow(data.last())) by {
                if narrow(data.last()) {
                    assert(before.push(key(data.last()))[before.len() as int] == key(data.last()));
                }
            }
        }
        lemma_absent_key(data.drop_last(), sel, key, c, narrow, val, key2);
    }
}

/// A wider selection sums to at least as much where the values are not
/// negative.
pub proof fn lemma_sum_mono<T>(
    data: Seq<T>,
    narrow: spec_fn(T) -> bool,
    wide: spec_fn(T) -> bool,
    val: spec_fn(T) -> int,
)
    requires
        forall|j: int| 0 <= j < data.len() ==> (narrow(#[trigger] data[j]) ==> wide(data[j])),
        forall|j: int| 0 <= j < data.len() ==> val(#[trigger] data[j]) >= 0,
    ensures
        sum_of(data, narrow, val) <= sum_of(data, wide, val),
    decreases data.len(),
{
    if data.len() > 0 {
        let d = data.drop_last();
        assert forall|j: int| 0 <= j < d.len() implies (narrow(#[trigger] d[j]) ==> wide(d[j])) by {
            assert(d[j] == data[j]);
        }
        assert forall|j: int| 0 <= j < d.len() implies val(#[trigger] d[j]) >= 0 by {
            assert(d[j] == data[j]);
        }
        lemma_sum_mono(d, narrow, wide, val);
        assert(data.last() == data[data.len() - 1]);
    }
}

/// Selects the elements that `sel` selects and whose key is `k`.
pub open spec fn keyed<T>(sel: spec_fn(T) -> bool, key: spec_fn(T) -> Seq<char>, k: Seq<char>) -> spec_fn(
    T,
) -> bool {
    |y: T| sel(y) && key(y) == k
}

/// The sum, over the keys of `keys`, of `val` over the selected elements
/// with that key.
pub open spec fn sum_by_keys<T>(
    data: Seq<T>,
    keys: Seq<Seq<char>>,
    sel: spec_fn(T) -> bool,
    key: spec_fn(T) -> Seq<char>,
    val: spec_fn(T) -> int,
) -> int
    decreases keys.len(),
{
    if keys.len() == 0 {
        0
    } else {
        sum_by_keys(data, keys.drop_last(), sel, key, val) + sum_of(
            data,
            keyed(sel, key, keys.last()),
            val,
        )
    }
}

/// One more element: the per-key sums over distinct keys grow by its value
/// where it is selected and its key is among them.
proof fn lemma_sum_by_keys_step<T>(
    data: Seq<T>,
    keys: Seq<Seq<char>>,
    sel: spec_fn(T) -> bool,
    key: spec_fn(T) -> Seq<char>,
    val: spec_fn(T) -> int,
)
    requires
        data.len() > 0,
        keys.no_duplicates(),
    ensures
        sum_by_keys(data, keys, sel, key, val) == sum_by_keys(data.drop_last(), keys, sel, key, val)
            + if sel(data.last()) && keys.contains(key(data.last())) {
            val(data.last())
        } else {
            0
        },
    decreases keys.len(),
{
    if keys.len() > 0 {
        let kd = keys.drop_last();
        assert(kd.no_duplicates()) by {
            assert forall|a: int, b: int| 0 <= a < b < kd.len() implies kd[a] != kd[b] by {
                assert(kd[a] == keys[a] && kd[b] == keys[b]);
            }
        }
        lemma_sum_by_keys_step(data, kd, sel, key, val);
        let x = data.last();
        if keys.contains(key(x)) {
            let q = choose|q: int| 0 <= q < keys.len() && keys[q] == key(x);
            if q < keys.len() - 1 {
                assert(kd[q] == key(x));
            }
        }
        if kd.contains(key(x)) {
            let q = choose|q: int| 0 <= q < kd.len() && kd[q] == key(x);
            assert(keys[q] == key(x));
            assert(keys[q] != keys[keys.len() - 1]);
        }
        if key(x) == keys.last() {
            assert(keys[keys.len() - 1] == key(x));
        }
    }
}

/// The selected elements fall into their keys: summing per distinct key
/// gives the sum over all selected elements.
pub proof fn lemma_sum_by_distinct_keys<T>(
    data: Seq<T>,
    sel: spec_fn(T) -> bool,
    key: spec_fn(T) -> Seq<char>,
    val: spec_fn(T) -> int,
)
    ensures
        sum_by_keys(data, distinct_of(data, sel, key), sel, key, val) == sum_of(data, sel, val),
    decreases data.len(),
{
    if data.len() > 0 {
        let d = data.drop_last();
        let x = data.last();
        let before = distinct_of(d, sel, key);
        lemma_sum_by_distinct_keys(d, sel, key, val);
        lemma_distinct_unique(d, sel, key);
        lemma_sum_by_keys_step(data, before, sel, key, val);
        if sel(x) && !before.contains(key(x)) {
            let k = key(x);
            assert(before.push(k).drop_last() =~= before);
            lemma_absent_key(d, sel, key, k, keyed(sel, key, k), val, key);
        }
    }
}

/// Either of two selections.
pub open spec fn either<T>(a: spec_fn(T) -> bool, b: spec_fn(T) -> bool) -> spec_fn(T) -> bool {
    |x: T| a(x) || b(x)
}

/// Two selections that never select the same element sum, together, to
/// the sum over either of them.
pub proof fn lemma_sum_disjoint<T>(
    data: Seq<T>,
    a: spec_fn(T) -> bool,
    b: spec_fn(T) -> bool,
    val: spec_fn(T) -> int,
)
    requires
        forall|x: T| !(#[trigger] a(x) && b(x)),
    ensures
        sum_of(data, either(a, b), val) == sum_of(data, a, val) + sum_of(data, b, val),
    decreases data.len(),
{
    if data.len() > 0 {
        lemma_sum_disjoint(data.drop_last(), a, b, val);
        assert(!(a(data.last()) && b(data.last())));
    }
}

/// A selection that selects nothing sums to 0.
pub proof fn lemma_sum_none<T>(data: Seq<T>, sel: spec_fn(T) -> bool, val: spec_fn(T) -> int)
    requires
        forall|x: T| !#[trigger] sel(x),
    ensures
        sum_of(data, sel, val) == 0,
    decreases data.len(),
{
    if data.len() > 0 {
        lemma_sum_none(data.drop_last(), sel, val);
    }
}

/// The elements of `data` that `pred` keeps, in order.
pub open spec fn kept<T>(data: Seq<T>, pred: spec_fn(T) -> bool) -> Seq<T>
    decreases data.len(),
{
    if data.len() == 0 {
        Seq::empty()
    } else if pred(data.last()) {
        kept(data.drop_last(), pred).push(data.last())
    } else {
        kept(data.drop_last(), pred)
    }
}

/// A selection within what `pred` keeps sums and lists keys alike over the
/// kept elements alone.
pub proof fn lemma_kept_same<T>(
    data: Seq<T>,
    pred: spec_fn(T) -> bool,
    sel: spec_fn(T) -> bool,
    val: spec_fn(T) -> int,
    key: spec_fn(T) -> Seq<char>,
)
    requires
        forall|x: T| #[trigger] sel(x) ==> pred(x),
    ensures
        sum_of(data, sel, val) == sum_of(kept(data, pred), sel, val),
        distinct_of(data, sel, key) == distinct_of(kept(data, pred), sel, key),
    decreases data.len(),
{
    if data.len() > 0 {
        let d = data.drop_last();
        let x = data.last();
        lemma_kept_same(d, pred, sel, val, key);
        if pred(x) {
            assert(kept(d, pred).push(x).drop_last() =~= kept(d, pred));
        } else {
            assert(!sel(x));
        }
    }
}

/// What `pred` keeps of a prefix is a prefix of what it keeps of the whole.
proof fn lemma_kept_prefix<T>(data: Seq<T>, pred: spec_fn(T) -> bool, j: int)
    requires
        0 <= j <= data.len(),
    ensures
        kept(data.take(j), pred).len() <= kept(data, pred).len(),
        kept(data.take(j), pred) == kept(data, pred).take(kept(data.take(j), pred).len() as int),
    decreases data.len(),
{
    if j == data.len() {
        assert(data.take(j) =~= data);
        assert(kept(data, pred).take(kept(data, pred).len() as int) =~= kept(data, pred));
    } else {
        let d = data.drop_last();
        lemma_kept_prefix(d, pred, j);
        assert(d.take(j) =~= data.take(j));
        let c = kept(d.take(j), pred).len() as int;
        if pred(data.last()) {
            assert(kept(d, pred).push(data.last()).take(c) =~= kept(d, pred).take(c));
        }
    }
}

/// Every length up to that of the kept elements is reached by a prefix.
proof fn lemma_kept_reached<T>(data: Seq<T>, pred: spec_fn(T) -> bool, k: int) -> (j: int)
    requires
        0 <= k <= kept(data, pred).len(),
    ensures
        0 <= j <= data.len(),
        kept(data.take(j), pred).len() == k,
    decreases data.len(),
{
    if k == kept(data, pred).len() {
        assert(data.take(data.len() as int) =~= data);
        data.len() as int
    } else {
        let d = data.drop_last();
        let j = lemma_kept_reached(d, pred, k);
        assert(d.take(j) =~= data.take(j));
        j
    }
}

/// The running sums over the prefixes of `data` of a selection within what
/// `pred` keeps are those over the prefixes of the kept elements, so they
/// all lie within `[lo, hi]` for one exactly when they do for the other.
pub proof fn lemma_kept_running_sums<T>(
    data: Seq<T>,
    pred: spec_fn(T) -> bool,
    sel: spec_fn(T) -> bool,
    val: spec_fn(T) -> int,
    lo: int,
    hi: int,
)
    requires
        forall|x: T| #[trigger] sel(x) ==> pred(x),
    ensures
        (forall|j: int| 0 <= j <= data.len() ==> lo <= #[trigger] sum_of(data.take(j), sel, val) <= hi)
            <==> (forall|k: int|
            0 <= k <= kept(data, pred).len() ==> lo <= #[trigger] sum_of(kept(data, pred).take(k), sel, val)
                <= hi),
{
    let f = kept(data, pred);
    if forall|j: int| 0 <= j <= data.len() ==> lo <= #[trigger] sum_of(data.take(j), sel, val) <= hi {
        assert forall|k: int| 0 <= k <= f.len() implies lo <= #[trigger] sum_of(f.take(k), sel, val) <= hi by {
            let j = lemma_kept_reached(data, pred, k);
            lemma_kept_prefix(data, pred, j);
            lemma_kept_same(data.take(j), pred, sel, val, |x: T| Seq::<char>::empty());
            assert(sum_of(data.take(j), sel, val) == sum_of(f.take(k), sel, val));
        }
    }
    if forall|k: int| 0 <= k <= f.len() ==> lo <= #[trigger] sum_of(f.take(k), sel, val) <= hi {
        assert forall|j: int| 0 <= j <= data.len() implies lo <= #[trigger] sum_of(data.take(j), sel, val) <= hi by {
            lemma_kept_prefix(data, pred, j);
            lemma_kept_same(data.take(j), pred, sel, val, |x: T| Seq::<char>::empty());
            let k = kept(data.take(j), pred).len() as int;
            assert(sum_of(data.take(j), sel, val) == sum_of(f.take(k), sel, val));
        }
    }
}

/// The distinct texts of a list, in the order of `String`, as sorting and
/// then dropping repeats gives them.
pub fn sorted_unique_strings(items: &Vec<String>) -> (res: Vec<String>)
    ensures
        forall|i: int, j: int|
            0 <= i < j < res@.len() ==> text_lt(#[trigger] res@[i]@, #[trigger] res@[j]@),
        forall|t: Seq<char>| views(res@).contains(t) <==> views(items@).contains(t),
{
    let mut res: Vec<String> = Vec::new();
    let mut k: usize = 0;
    while k < items.len()
        invariant
            0 <= k <= items@.len(),
            forall|i: int, j: int|
                0 <= i < j < res@.len() ==> text_lt(#[trigger] res@[i]@, #[trigger] res@[j]@),
            forall|t: Seq<char>| views(res@).contains(t) <==> views(items@.take(k as int)).contains(t),
        decreases items@.len() - k,
    {
        let x = items[k].clone();
        let n = res.len();
        let mut p: usize = 0;
        while p < n && text_less(res[p].as_str(), x.as_str())
            invariant
                n == res@.len(),
                0 <= p <= n,
                forall|q: int| 0 <= q < p ==> text_lt(#[trigger] res@[q]@, x@),
            decreases n - p,
        {
            p = p + 1;
        }
        let ghost before = res@;
        let ghost t0 = views(items@.take(k as int));
        let ghost t1 = views(items@.take(k + 1));
        proof {
            assert(t1 =~= t0.push(x@));
            assert forall|y: Seq<char>| t1.contains(y) <==> (t0.contains(y) || y == x@) by {
                if t1.contains(y) {
                    let q = choose|q: int| 0 <= q < t1.len() && t1[q] == y;
                    if q < k {
                        assert(t0[q] == y);
                    }
                }
                if t0.contains(y) {
                    let q = choose|q: int| 0 <= q < t0.len() && t0[q] == y;
                    assert(t1[q] == y);
                }
                if y == x@ {
                    assert(t1[k as int] == y);
                }
            }
        }
        let same = p < n && crate::text::str_eq(res[p].as_str(), x.as_str());
        if !same {
            proof {
                if p < n {
                    lemma_text_lt_total(before[p as int]@, x@);
                }
            }
            res.insert(p, x);
            proof {
                assert(res@ == before.insert(p as int, x));
                assert forall|i: int, j: int| 0 <= i < j < res@.len() implies text_lt(
                    #[trigger] res@[i]@,
                    #[trigger] res@[j]@,
                ) by {
                    if j < p {
                        assert(res@[i] == before[i] && res@[j] == before[j]);
                    } else if j == p {
                        assert(res@[i] == before[i]);
                    } else if i > p {
                        assert(res@[i] == before[i - 1] && res@[j] == before[j - 1]);
                    } else if i == p {
                        assert(res@[j] == before[j - 1]);
                        assert(text_lt(x@, before[p as int]@));
                        if j - 1 > p {
                            assert(text_lt(before[p as int]@, before[j - 1]@));
                            lemma_text_lt_trans(x@, before[p as int]@, before[j - 1]@);
                        }
                    } else {
                        assert(res@[i] == before[i] && res@[j] == before[j - 1]);
                        assert(text_lt(before[i]@, before[j - 1]@));
                    }
                }
                assert forall|y: Seq<char>| views(res@).contains(y) <==> (views(before).contains(y) || y == x@) by {
                    if views(res@).contains(y) {
                        let q = choose|q: int| 0 <= q < views(res@).len() && views(res@)[q] == y;
                        if q < p {
                            assert(views(before)[q] == y);
                        } else if q > p {
                            assert(views(before)[q - 1] == y);
                        }
                    }
                    if views(before).contains(y) {
                        let q = choose|q: int| 0 <= q < views(before).len() && views(before)[q] == y;
                        if q < p {
                            assert(views(res@)[q] == y);
                        } else {
                            assert(views(res@)[q + 1] == y);
                        }
                    }
                    if y == x@ {
                        assert(views(res@)[p as int] == x@);
                    }
                }
                assert forall|y: Seq<char>| views(res@).contains(y) <==> t1.contains(y) by {
                    assert(views(res@).contains(y) <==> (views(before).contains(y) || y == x@));
                    assert(views(before).contains(y) <==> t0.contains(y));
                    assert(t1.contains(y) <==> (t0.contains(y) || y == x@));
                }
            }
        } else {
            proof {
                assert(views(before)[p as int] == x@);
                assert(views(before).contains(x@));
                assert forall|y: Seq<char>| views(res@).contains(y) <==> t1.contains(y) by {
                    assert(views(before).contains(y) <==> t0.contains(y));
                    assert(t1.contains(y) <==> (t0.contains(y) || y == x@));
                }
            }
        }
        k = k + 1;
    }
    proof {
        assert(items@.take(k as int) =~= items@);
    }
    res
}

/// Two selections that agree on every element of `data` sum alike over it.
pub proof fn lemma_sum_same_on<T>(
    data: Seq<T>,
    a: spec_fn(T) -> bool,
    b: spec_fn(T) -> bool,
    val: spec_fn(T) -> int,
)
    requires
        forall|j: int| 0 <= j < data.len() ==> a(#[trigger] data[j]) == b(data[j]),
    ensures
        sum_of(data, a, val) == sum_of(data, b, val),
    decreases data.len(),
{
    if data.len() > 0 {
        let d = data.drop_last();
        assert forall|j: int| 0 <= j < d.len() implies a(#[trigger] d[j]) == b(d[j]) by {
            assert(d[j] == data[j]);
        }
        lemma_sum_same_on(d, a, b, val);
        assert(data.last() == data[data.len() - 1]);
    }
}

/// Two selections that agree on every element of `data`, and two keys
/// that agree on the elements selected, list the same keys.
pub proof fn lemma_distinct_same_on<T>(
    data: Seq<T>,
    a: spec_fn(T) -> bool,
    b: spec_fn(T) -> bool,
    ka: spec_fn(T) -> Seq<char>,
    kb: spec_fn(T) -> Seq<char>,
)
    requires
        forall|j: int| 0 <= j < data.len() ==> a(#[trigger] data[j]) == b(data[j]),
        forall|j: int| 0 <= j < data.len() && a(#[trigger] data[j]) ==> ka(data[j]) == kb(data[j]),
    ensures
        distinct_of(data, a, ka) == distinct_of(data, b, kb),
    decreases data.len(),
{
    if data.len() > 0 {
        let d = data.drop_last();
        assert forall|j: int| 0 <= j < d.len() implies a(#[trigger] d[j]) == b(d[j]) by {
            assert(d[j] == data[j]);
        }
        assert forall|j: int| 0 <= j < d.len() && a(#[trigger] d[j]) implies ka(d[j]) == kb(d[j]) by {
            assert(d[j] == data[j]);
        }
        lemma_distinct_same_on(d, a, b, ka, kb);
        assert(data.last() == data[data.len() - 1]);
    }
}

} // verus!
