//! Ordering names, and rows by their names, ascending.
use crate::store::{names_view, sorted_names};
use crate::text::{
    lemma_compare_antisym, lemma_compare_eq, lemma_compare_trans, owned, seq_le, str_compare,
};
use vstd::prelude::*;

verus! {

/// `x` placed before the first name of `s` it does not exceed.
pub open spec fn insert_name(x: Seq<char>, s: Seq<Seq<char>>) -> Seq<Seq<char>>
    decreases s.len(),
{
    if s.len() == 0 {
        seq![x]
    } else if seq_le(x, s[0]) {
        seq![x] + s
    } else {
        seq![s[0]] + insert_name(x, s.drop_first())
    }
}

/// The names of `s` in ascending order.
pub open spec fn sort_names(s: Seq<Seq<char>>) -> Seq<Seq<char>>
    decreases s.len(),
{
    if s.len() == 0 {
        seq![]
    } else {
        insert_name(s.last(), sort_names(s.drop_last()))
    }
}

/// Index `x` placed before the first index of `s` whose key it does not
/// exceed.
pub open spec fn insert_index(x: int, s: Seq<int>, key: Seq<Seq<char>>) -> Seq<int>
    decreases s.len(),
{
    if s.len() == 0 {
        seq![x]
    } else if seq_le(key[x], key[s[0]]) {
        seq![x] + s
    } else {
        seq![s[0]] + insert_index(x, s.drop_first(), key)
    }
}

/// The indices `0..n` ordered by `key`, ascending.
pub open spec fn order_by_key(n: nat, key: Seq<Seq<char>>) -> Seq<int>
    decreases n,
{
    if n == 0 {
        seq![]
    } else {
        insert_index(n - 1, order_by_key((n - 1) as nat, key), key)
    }
}

pub proof fn lemma_insert_name_at(x: Seq<char>, s: Seq<Seq<char>>, j: int)
    requires
        0 <= j <= s.len(),
        forall|t: int| 0 <= t < j ==> !seq_le(x, #[trigger] s[t]),
        j == s.len() || seq_le(x, s[j]),
    ensures
        insert_name(x, s) == s.insert(j, x),
    decreases s.len(),
{
    if s.len() == 0 {
        assert(s.insert(j, x) =~= seq![x]);
    } else if j == 0 {
        assert(s.insert(j, x) =~= seq![x] + s);
    } else {
        let t = s.drop_first();
        assert forall|u: int| 0 <= u < j - 1 implies !seq_le(x, #[trigger] t[u]) by {
            assert(t[u] == s[u + 1]);
        }
        lemma_insert_name_at(x, t, j - 1);
        assert(s.insert(j, x) =~= seq![s[0]] + t.insert(j - 1, x));
    }
}

proof fn lemma_insert_index_at(x: int, s: Seq<int>, key: Seq<Seq<char>>, j: int)
    requires
        0 <= j <= s.len(),
        forall|t: int| 0 <= t < j ==> !seq_le(key[x], key[#[trigger] s[t]]),
        j == s.len() || seq_le(key[x], key[s[j]]),
    ensures
        insert_index(x, s, key) == s.insert(j, x),
    decreases s.len(),
{
    if s.len() == 0 {
        assert(s.insert(j, x) =~= seq![x]);
    } else if j == 0 {
        assert(s.insert(j, x) =~= seq![x] + s);
    } else {
        let t = s.drop_first();
        assert forall|u: int| 0 <= u < j - 1 implies !seq_le(key[x], key[#[trigger] t[u]]) by {
            assert(t[u] == s[u + 1]);
        }
        lemma_insert_index_at(x, t, key, j - 1);
        assert(s.insert(j, x) =~= seq![s[0]] + t.insert(j - 1, x));
    }
}

/// Inserting into a sorted list keeps it sorted.
pub proof fn lemma_insert_name_sorted(x: Seq<char>, s: Seq<Seq<char>>)
    requires
        sorted_names(s),
    ensures
        sorted_names(insert_name(x, s)),
        insert_name(x, s).len() == s.len() + 1,
    decreases s.len(),
{
    if s.len() == 0 {
    } else if seq_le(x, s[0]) {
        let r = seq![x] + s;
        assert forall|i: int, j: int| 0 <= i < j < r.len() implies seq_le(
            #[trigger] r[i],
            #[trigger] r[j],
        ) by {
            if i == 0 {
                if j > 1 {
                    lemma_compare_trans(x, s[0], s[j - 1]);
                }
            } else {
                assert(r[i] == s[i - 1] && r[j] == s[j - 1]);
            }
        }
    } else {
        let t = s.drop_first();
        assert(sorted_names(t)) by {
            assert forall|i: int, j: int| 0 <= i < j < t.len() implies seq_le(
                #[trigger] t[i],
                #[trigger] t[j],
            ) by {
                assert(t[i] == s[i + 1] && t[j] == s[j + 1]);
            }
        }
        lemma_insert_name_sorted(x, t);
        let u = insert_name(x, t);
        let r = seq![s[0]] + u;
        lemma_compare_antisym(x, s[0]);
        assert forall|k: int| 0 <= k < u.len() implies seq_le(s[0], #[trigger] u[k]) by {
            lemma_insert_name_members(x, t, k);
            if u[k] != x {
                let m = choose|m: int| 0 <= m < t.len() && t[m] == u[k];
                assert(t[m] == s[m + 1]);
            }
        }
        assert forall|i: int, j: int| 0 <= i < j < r.len() implies seq_le(
            #[trigger] r[i],
            #[trigger] r[j],
        ) by {
            if i == 0 {
                assert(r[j] == u[j - 1]);
            } else {
                assert(r[i] == u[i - 1] && r[j] == u[j - 1]);
            }
        }
    }
}

proof fn lemma_insert_name_len(x: Seq<char>, s: Seq<Seq<char>>)
    ensures
        insert_name(x, s).len() == s.len() + 1,
    decreases s.len(),
{
    if s.len() > 0 && !seq_le(x, s[0]) {
        lemma_insert_name_len(x, s.drop_first());
    }
}

/// Every entry of `insert_name(x, s)` is `x` or an entry of `s`.
proof fn lemma_insert_name_members(x: Seq<char>, s: Seq<Seq<char>>, k: int)
    requires
        0 <= k < insert_name(x, s).len(),
    ensures
        insert_name(x, s).len() == s.len() + 1,
        insert_name(x, s)[k] == x || exists|m: int| 0 <= m < s.len() && s[m] == insert_name(x, s)[k],
    decreases s.len(),
{
    lemma_insert_name_len(x, s);
    if s.len() == 0 {
    } else if seq_le(x, s[0]) {
        if k > 0 {
            assert(s[k - 1] == insert_name(x, s)[k]);
        }
    } else {
        let t = s.drop_first();
        lemma_insert_name_len(x, t);
        if k == 0 {
            assert(s[0] == insert_name(x, s)[k]);
        } else {
            lemma_insert_name_members(x, t, k - 1);
            if insert_name(x, t)[k - 1] != x {
                let m = choose|m: int| 0 <= m < t.len() && t[m] == insert_name(x, t)[k - 1];
                assert(s[m + 1] == insert_name(x, s)[k]);
            }
        }
    }
}

/// Sorting yields a sorted list of the same length.
pub proof fn lemma_sort_names_sorted(s: Seq<Seq<char>>)
    ensures
        sorted_names(sort_names(s)),
        sort_names(s).len() == s.len(),
    decreases s.len(),
{
    if s.len() > 0 {
        lemma_sort_names_sorted(s.drop_last());
        lemma_insert_name_sorted(s.last(), sort_names(s.drop_last()));
    }
}

/// The names of `v` in ascending order.
pub fn sorted_copy(v: &Vec<String>) -> (r: Vec<String>)
    ensures
        names_view(r@) == sort_names(names_view(v@)),
        sorted_names(names_view(r@)),
{
    let mut out: Vec<String> = Vec::new();
    let mut k: usize = 0;
    while k < v.len()
        invariant
            k <= v@.len(),
            names_view(out@) == sort_names(names_view(v@).take(k as int)),
        decreases v.len() - k,
    {
        let x = &v[k];
        let mut j: usize = 0;
        while j < out.len()
            invariant
                j <= out@.len(),
                forall|t: int| 0 <= t < j ==> !seq_le(x@, #[trigger] names_view(out@)[t]),
            ensures
                j <= out@.len(),
                forall|t: int| 0 <= t < j ==> !seq_le(x@, #[trigger] names_view(out@)[t]),
                j == out@.len() || seq_le(x@, names_view(out@)[j as int]),
            decreases out.len() - j,
        {
            if str_compare(x.as_str(), out[j].as_str()) <= 0 {
                break;
            }
            j = j + 1;
        }
        let ghost before = names_view(out@);
        proof {
            if j < out@.len() {
                lemma_compare_eq(x@, out@[j as int]@);
            }
            lemma_insert_name_at(x@, before, j as int);
            assert(names_view(v@).take(k + 1).drop_last() =~= names_view(v@).take(k as int));
        }
        out.insert(j, owned(x.as_str()));
        assert(names_view(out@) =~= before.insert(j as int, x@));
        k = k + 1;
    }
    assert(names_view(v@).take(v@.len() as int) =~= names_view(v@));
    proof {
        lemma_sort_names_sorted(names_view(v@));
    }
    out
}

/// The positions `0..keys.len()` ordered by their key, ascending.
pub fn order_by_name(keys: &Vec<String>) -> (r: Vec<usize>)
    ensures
        r@.map_values(|u: usize| u as int) == order_by_key(keys@.len(), names_view(keys@)),
        forall|t: int| 0 <= t < r@.len() ==> #[trigger] r@[t] < keys@.len(),
{
    let ghost key = names_view(keys@);
    let mut out: Vec<usize> = Vec::new();
    let mut k: usize = 0;
    while k < keys.len()
        invariant
            k <= keys@.len(),
            key == names_view(keys@),
            out@.map_values(|u: usize| u as int) == order_by_key(k as nat, key),
            forall|t: int| 0 <= t < out@.len() ==> #[trigger] out@[t] < k,
        decreases keys.len() - k,
    {
        let mut j: usize = 0;
        while j < out.len()
            invariant
                j <= out@.len(),
                k < keys@.len(),
                key == names_view(keys@),
                forall|t: int| 0 <= t < out@.len() ==> #[trigger] out@[t] < k,
                forall|t: int|
                    0 <= t < j ==> !seq_le(key[k as int], key[#[trigger] out@[t] as int]),
            ensures
                j <= out@.len(),
                forall|t: int|
                    0 <= t < j ==> !seq_le(key[k as int], key[#[trigger] out@[t] as int]),
                j == out@.len() || seq_le(key[k as int], key[out@[j as int] as int]),
            decreases out.len() - j,
        {
            let o = out[j];
            if str_compare(keys[k].as_str(), keys[o].as_str()) <= 0 {
                break;
            }
            j = j + 1;
        }
        let ghost before = out@.map_values(|u: usize| u as int);
        proof {
            assert forall|t: int| 0 <= t < j implies !seq_le(key[k as int], key[#[trigger] before[t]]) by {
                assert(before[t] == out@[t] as int);
            }
            if j < out@.len() {
                assert(before[j as int] == out@[j as int] as int);
            }
            lemma_insert_index_at(k as int, before, key, j as int);
        }
        out.insert(j, k);
        assert(out@.map_values(|u: usize| u as int) =~= before.insert(j as int, k as int));
        k = k + 1;
    }
    out
}

} // verus!
