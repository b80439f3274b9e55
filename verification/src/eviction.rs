//! Facts about counting the unpinned clips and about dropping the oldest
//! of them.

use vstd::prelude::*;
use crate::clip::ClipView;
use crate::model::{drop_oldest_unpinned, ids_distinct, ids_increasing, unpinned_count};

verus! {

/// Counting the unpinned clips from any position on: the clip there counts
/// if it is not pinned, and the rest follows.
pub proof fn lemma_unpinned_count_skip(s: Seq<ClipView>, i: int)
    requires
        0 <= i < s.len(),
    ensures
        unpinned_count(s.skip(i)) == unpinned_count(s.skip(i + 1)) + if s[i].pinned {
            0nat
        } else {
            1nat
        },
{
    assert(s.skip(i).drop_first() =~= s.skip(i + 1));
}

/// A pinned prefix holds no unpinned clip.
pub proof fn lemma_unpinned_count_after_pinned_prefix(s: Seq<ClipView>, i: int)
    requires
        0 <= i <= s.len(),
        forall|j: int| 0 <= j < i ==> (#[trigger] s[j]).pinned,
    ensures
        unpinned_count(s) == unpinned_count(s.skip(i)),
    decreases i,
{
    if i == 0 {
        assert(s.skip(0) =~= s);
    } else {
        lemma_unpinned_count_after_pinned_prefix(s, i - 1);
        lemma_unpinned_count_skip(s, i - 1);
    }
}

/// A clip put last adds to the count if it is not pinned.
pub proof fn lemma_unpinned_count_push(s: Seq<ClipView>, c: ClipView)
    ensures
        unpinned_count(s.push(c)) == unpinned_count(s) + if c.pinned {
            0nat
        } else {
            1nat
        },
    decreases s.len(),
{
    if s.len() == 0 {
        assert(s.push(c).drop_first() =~= Seq::<ClipView>::empty());
        assert(unpinned_count(s.push(c).drop_first()) == 0);
    } else {
        assert(s.push(c).drop_first() =~= s.drop_first().push(c));
        lemma_unpinned_count_push(s.drop_first(), c);
    }
}

/// Taking one clip out takes it out of the count if it was not pinned.
pub proof fn lemma_unpinned_count_remove(s: Seq<ClipView>, i: int)
    requires
        0 <= i < s.len(),
    ensures
        unpinned_count(s) == unpinned_count(s.remove(i)) + if s[i].pinned {
            0nat
        } else {
            1nat
        },
    decreases i,
{
    if i == 0 {
        assert(s.remove(0) =~= s.drop_first());
    } else {
        assert(s.remove(i).drop_first() =~= s.drop_first().remove(i - 1));
        lemma_unpinned_count_remove(s.drop_first(), i - 1);
    }
}

/// The unpinned clips before a position and those from it on are all the
/// unpinned clips.
pub proof fn lemma_unpinned_count_split(s: Seq<ClipView>, i: int)
    requires
        0 <= i <= s.len(),
    ensures
        unpinned_count(s) == unpinned_count(s.take(i)) + unpinned_count(s.skip(i)),
    decreases i,
{
    if i == 0 {
        assert(s.skip(0) =~= s);
        assert(s.take(0) =~= Seq::<ClipView>::empty());
    } else {
        let rest = s.drop_first();
        lemma_unpinned_count_split(rest, i - 1);
        assert(s.take(i).drop_first() =~= rest.take(i - 1));
        assert(s.skip(i) =~= rest.skip(i - 1));
        assert(s.take(i)[0] == s[0]);
    }
}

/// To drop the `n` oldest unpinned clips is to take out the oldest unpinned
/// clip and then to drop the `n - 1` oldest that are left.
pub proof fn lemma_drop_oldest_step(s: Seq<ClipView>, i: int, n: nat)
    requires
        n > 0,
        0 <= i < s.len(),
        !s[i].pinned,
        forall|j: int| 0 <= j < i ==> (#[trigger] s[j]).pinned,
    ensures
        drop_oldest_unpinned(s, n) == drop_oldest_unpinned(s.remove(i), (n - 1) as nat),
    decreases i,
{
    if i == 0 {
        assert(s.remove(0) =~= s.drop_first());
    } else {
        let rest = s.drop_first();
        assert(forall|j: int| 0 <= j < i - 1 ==> (#[trigger] rest[j]).pinned) by {
            assert forall|j: int| 0 <= j < i - 1 implies (#[trigger] rest[j]).pinned by {
                assert(rest[j] == s[j + 1]);
            }
        }
        lemma_drop_oldest_step(rest, i - 1, n);
        let removed = s.remove(i);
        assert(removed.drop_first() =~= rest.remove(i - 1));
        assert(removed[0] == s[0]);
        if n - 1 == 0 {
            assert(removed =~= seq![s[0]] + rest.remove(i - 1));
        }
    }
}

/// What is left after the oldest unpinned clips were dropped was there before,
/// and every pinned clip is still there.
pub proof fn lemma_drop_oldest_members(s: Seq<ClipView>, n: nat)
    ensures
        drop_oldest_unpinned(s, n).len() <= s.len(),
        forall|k: int|
            0 <= k < drop_oldest_unpinned(s, n).len() ==> s.contains(
                #[trigger] drop_oldest_unpinned(s, n)[k],
            ),
        forall|i: int|
            0 <= i < s.len() && (#[trigger] s[i]).pinned ==> drop_oldest_unpinned(s, n).contains(
                s[i],
            ),
    decreases s.len(),
{
    let d = drop_oldest_unpinned(s, n);
    if n == 0 || s.len() == 0 {
        assert forall|k: int| 0 <= k < d.len() implies s.contains(#[trigger] d[k]) by {
            assert(s[k] == d[k]);
        }
        assert forall|i: int| 0 <= i < s.len() && (#[trigger] s[i]).pinned implies d.contains(
            s[i],
        ) by {
            assert(d[i] == s[i]);
        }
    } else {
        let rest = s.drop_first();
        let m: nat = if s[0].pinned {
            n
        } else {
            (n - 1) as nat
        };
        let dr = drop_oldest_unpinned(rest, m);
        lemma_drop_oldest_members(rest, m);
        assert forall|k: int| 0 <= k < d.len() implies s.contains(#[trigger] d[k]) by {
            if s[0].pinned && k == 0 {
                assert(d[0] == s[0]);
            } else {
                let kk = if s[0].pinned {
                    k - 1
                } else {
                    k
                };
                assert(d[k] == dr[kk]);
                assert(rest.contains(dr[kk]));
                let j = choose|j: int| 0 <= j < rest.len() && rest[j] == dr[kk];
                assert(s[j + 1] == d[k]);
            }
        }
        assert forall|i: int| 0 <= i < s.len() && (#[trigger] s[i]).pinned implies d.contains(
            s[i],
        ) by {
            if i == 0 {
                assert(d[0] == s[0]);
            } else {
                assert(rest[i - 1] == s[i]);
                assert(dr.contains(rest[i - 1]));
                let j = choose|j: int| 0 <= j < dr.len() && dr[j] == rest[i - 1];
                if s[0].pinned {
                    assert(d[j + 1] == s[i]);
                } else {
                    assert(d[j] == s[i]);
                }
            }
        }
    }
}

/// Dropping clips keeps the ids in growing order.
pub proof fn lemma_drop_oldest_increasing(s: Seq<ClipView>, n: nat)
    requires
        ids_increasing(s),
    ensures
        ids_increasing(drop_oldest_unpinned(s, n)),
    decreases s.len(),
{
    let d = drop_oldest_unpinned(s, n);
    if n == 0 || s.len() == 0 {
    } else {
        let rest = s.drop_first();
        assert(ids_increasing(rest)) by {
            assert forall|i: int, j: int| 0 <= i < j < rest.len() implies (#[trigger] rest[i]).id
                < (#[trigger] rest[j]).id by {
                assert(rest[i] == s[i + 1] && rest[j] == s[j + 1]);
            }
        }
        if s[0].pinned {
            let dr = drop_oldest_unpinned(rest, n);
            lemma_drop_oldest_increasing(rest, n);
            lemma_drop_oldest_members(rest, n);
            assert forall|i: int, j: int| 0 <= i < j < d.len() implies (#[trigger] d[i]).id < (
            #[trigger] d[j]).id by {
                assert(d[j] == dr[j - 1]);
                if i == 0 {
                    assert(rest.contains(dr[j - 1]));
                    let m = choose|m: int| 0 <= m < rest.len() && rest[m] == dr[j - 1];
                    assert(s[m + 1] == d[j]);
                    assert(d[0] == s[0]);
                } else {
                    assert(d[i] == dr[i - 1]);
                }
            }
        } else {
            lemma_drop_oldest_increasing(rest, (n - 1) as nat);
        }
    }
}

/// Which clips are left after the `n` oldest unpinned clips were dropped: a
/// pinned clip is, and an unpinned clip is exactly if at least `n` unpinned
/// clips stand before it.
pub proof fn lemma_drop_oldest_contains(s: Seq<ClipView>, n: nat, i: int)
    requires
        ids_distinct(s),
        0 <= i < s.len(),
    ensures
        drop_oldest_unpinned(s, n).contains(s[i]) <==> (s[i].pinned || unpinned_count(s.take(i))
            >= n),
    decreases s.len(),
{
    let d = drop_oldest_unpinned(s, n);
    if n == 0 {
        assert(d[i] == s[i]);
    } else {
        let rest = s.drop_first();
        let m: nat = if s[0].pinned {
            n
        } else {
            (n - 1) as nat
        };
        let dr = drop_oldest_unpinned(rest, m);
        assert(ids_distinct(rest)) by {
            assert forall|a: int, b: int| 0 <= a < b < rest.len() implies (#[trigger] rest[a]).id
                != (#[trigger] rest[b]).id by {
                assert(rest[a] == s[a + 1] && rest[b] == s[b + 1]);
            }
        }
        lemma_drop_oldest_members(rest, m);
        assert(!dr.contains(s[0])) by {
            if dr.contains(s[0]) {
                let k = choose|k: int| 0 <= k < dr.len() && dr[k] == s[0];
                assert(rest.contains(dr[k]));
                let j = choose|j: int| 0 <= j < rest.len() && rest[j] == dr[k];
                assert(s[j + 1].id == s[0].id);
            }
        }
        if i == 0 {
            assert(s.take(0) =~= Seq::<ClipView>::empty());
            if s[0].pinned {
                assert(d[0] == s[0]);
            }
        } else {
            lemma_drop_oldest_contains(rest, m, i - 1);
            assert(rest[i - 1] == s[i]);
            assert(s.take(i).drop_first() =~= rest.take(i - 1));
            assert(s.take(i)[0] == s[0]);
            assert(s[i].id != s[0].id);
            if s[0].pinned {
                assert(d =~= seq![s[0]] + dr);
                if dr.contains(s[i]) {
                    let k = choose|k: int| 0 <= k < dr.len() && dr[k] == s[i];
                    assert(d[k + 1] == s[i]);
                }
                if d.contains(s[i]) {
                    let k = choose|k: int| 0 <= k < d.len() && d[k] == s[i];
                    assert(dr[k - 1] == s[i]);
                }
            }
        }
    }
}

/// Where no clip is pinned, dropping the `n` oldest unpinned clips is
/// dropping the `n` oldest clips.
pub proof fn lemma_drop_oldest_without_pins(s: Seq<ClipView>, n: nat)
    requires
        forall|i: int| 0 <= i < s.len() ==> !(#[trigger] s[i]).pinned,
        n <= s.len(),
    ensures
        unpinned_count(s) == s.len(),
        drop_oldest_unpinned(s, n) == s.skip(n as int),
    decreases s.len(),
{
    if s.len() == 0 {
        assert(s.skip(0) =~= s);
    } else {
        let rest = s.drop_first();
        assert forall|i: int| 0 <= i < rest.len() implies !(#[trigger] rest[i]).pinned by {
            assert(rest[i] == s[i + 1]);
        }
        assert(!s[0].pinned);
        if n == 0 {
            lemma_drop_oldest_without_pins(rest, 0);
            assert(s.skip(0) =~= s);
        } else {
            lemma_drop_oldest_without_pins(rest, (n - 1) as nat);
            assert(rest.skip(n - 1) =~= s.skip(n as int));
        }
    }
}

/// Dropping the `n` oldest unpinned clips takes `n` clips out of the unpinned
/// ones, or all of them where there are fewer, and no pinned clip.
pub proof fn lemma_drop_oldest_count(s: Seq<ClipView>, n: nat)
    ensures
        unpinned_count(drop_oldest_unpinned(s, n)) == if n <= unpinned_count(s) {
            (unpinned_count(s) - n) as nat
        } else {
            0nat
        },
        drop_oldest_unpinned(s, n).len() - unpinned_count(drop_oldest_unpinned(s, n)) == s.len()
            - unpinned_count(s),
    decreases s.len(),
{
    if n == 0 || s.len() == 0 {
    } else if s[0].pinned {
        let rest = s.drop_first();
        let d = drop_oldest_unpinned(s, n);
        lemma_drop_oldest_count(rest, n);
        assert(d.drop_first() =~= drop_oldest_unpinned(rest, n));
        assert(d[0] == s[0]);
    } else {
        lemma_drop_oldest_count(s.drop_first(), (n - 1) as nat);
    }
}

} // verus!
