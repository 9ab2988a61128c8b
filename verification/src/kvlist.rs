//! A small association-list theory: lists of (name, value) pairs with
//! unique names, looked up by name with a default for absent names. Both
//! the permission table and the account registry are stated over it.
use vstd::prelude::*;

verus! {

/// The value stored under `n`, or `dflt` when `n` is absent; the latest
/// entry wins.
pub open spec fn kv_lookup<T>(s: Seq<(Seq<char>, T)>, n: Seq<char>, dflt: T) -> T
    decreases s.len(),
{
    if s.len() == 0 {
        dflt
    } else if s.last().0 == n {
        s.last().1
    } else {
        kv_lookup(s.drop_last(), n, dflt)
    }
}

/// No name stored twice.
pub open spec fn kv_unique<T>(s: Seq<(Seq<char>, T)>) -> bool {
    forall|i: int, j: int| 0 <= i < j < s.len() ==> (#[trigger] s[i]).0 != (#[trigger] s[j]).0
}

/// With unique names, the entry at `k` decides its name's value.
pub proof fn lemma_kv_at<T>(s: Seq<(Seq<char>, T)>, k: int, n: Seq<char>, dflt: T)
    requires
        kv_unique(s),
        0 <= k < s.len(),
        s[k].0 == n,
    ensures
        kv_lookup(s, n, dflt) == s[k].1,
    decreases s.len(),
{
    if k == s.len() - 1 {
    } else {
        assert(s.last().0 != n);
        assert(s.drop_last()[k] == s[k]);
        lemma_kv_at(s.drop_last(), k, n, dflt);
    }
}

/// A name no entry stores looks up to the default.
pub proof fn lemma_kv_absent<T>(s: Seq<(Seq<char>, T)>, n: Seq<char>, dflt: T)
    requires
        forall|j: int| 0 <= j < s.len() ==> (#[trigger] s[j]).0 != n,
    ensures
        kv_lookup(s, n, dflt) == dflt,
    decreases s.len(),
{
    if s.len() > 0 {
        lemma_kv_absent(s.drop_last(), n, dflt);
    }
}

/// Replacing the entry at `k` changes only that entry's name and keeps
/// names unique.
pub proof fn lemma_kv_update<T>(s: Seq<(Seq<char>, T)>, k: int, e: (Seq<char>, T), dflt: T)
    requires
        kv_unique(s),
        0 <= k < s.len(),
        s[k].0 == e.0,
    ensures
        kv_unique(s.update(k, e)),
        kv_lookup(s.update(k, e), e.0, dflt) == e.1,
        forall|m: Seq<char>| m != e.0 ==> kv_lookup(s.update(k, e), m, dflt)
            == kv_lookup(s, m, dflt),
    decreases s.len(),
{
    let s2 = s.update(k, e);
    assert forall|i: int, j: int| 0 <= i < j < s2.len() implies (#[trigger] s2[i]).0
        != (#[trigger] s2[j]).0 by {
        assert(s[i].0 != s[j].0);
    }
    if k == s.len() - 1 {
        assert(s2.last() == e);
        assert(s2.drop_last() =~= s.drop_last());
        assert forall|m: Seq<char>| m != e.0 implies kv_lookup(s2, m, dflt)
            == kv_lookup(s, m, dflt) by {
            assert(kv_lookup(s2, m, dflt) == kv_lookup(s2.drop_last(), m, dflt));
            assert(kv_lookup(s, m, dflt) == kv_lookup(s.drop_last(), m, dflt));
        }
    } else {
        assert(s2.last() == s.last());
        assert(s2.drop_last() =~= s.drop_last().update(k, e));
        assert(s.drop_last()[k] == s[k]);
        lemma_kv_update(s.drop_last(), k, e, dflt);
        assert(s.last().0 != e.0);
        assert(kv_lookup(s2, e.0, dflt) == kv_lookup(s2.drop_last(), e.0, dflt));
        assert forall|m: Seq<char>| m != e.0 implies kv_lookup(s2, m, dflt)
            == kv_lookup(s, m, dflt) by {
            if s.last().0 == m {
                assert(kv_lookup(s2, m, dflt) == s2.last().1);
                assert(kv_lookup(s, m, dflt) == s.last().1);
            } else {
                assert(kv_lookup(s2, m, dflt) == kv_lookup(s2.drop_last(), m, dflt));
                assert(kv_lookup(s, m, dflt) == kv_lookup(s.drop_last(), m, dflt));
            }
        }
    }
}

/// Appending a fresh name keeps names unique and changes only that name.
pub proof fn lemma_kv_push<T>(s: Seq<(Seq<char>, T)>, e: (Seq<char>, T), dflt: T)
    requires
        kv_unique(s),
        forall|j: int| 0 <= j < s.len() ==> (#[trigger] s[j]).0 != e.0,
    ensures
        kv_unique(s.push(e)),
        kv_lookup(s.push(e), e.0, dflt) == e.1,
        forall|m: Seq<char>| m != e.0 ==> kv_lookup(s.push(e), m, dflt)
            == kv_lookup(s, m, dflt),
{
    let s2 = s.push(e);
    assert forall|i: int, j: int| 0 <= i < j < s2.len() implies (#[trigger] s2[i]).0
        != (#[trigger] s2[j]).0 by {
        if j == s2.len() - 1 {
            assert(s[i].0 != e.0);
        } else {
            assert(s[i].0 != s[j].0);
        }
    }
    assert(s2.drop_last() =~= s);
    assert forall|m: Seq<char>| m != e.0 implies kv_lookup(s2, m, dflt)
        == kv_lookup(s, m, dflt) by {
        assert(kv_lookup(s2, m, dflt) == kv_lookup(s2.drop_last(), m, dflt));
    }
}

} // verus!
