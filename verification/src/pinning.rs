//! Facts about setting the pinned flag of a clip and about taking a pin out.

use vstd::prelude::*;
use crate::clip::ClipView;
use crate::model::{
    clip_with_id, has_id, has_pinned_id, ids_distinct, ids_increasing, with_pinned, with_replaced,
    without_id,
};

verus! {

/// Where no entry has the id, nothing is taken out.
pub proof fn lemma_without_id_absent(s: Seq<ClipView>, id: nat)
    requires
        !has_id(s, id),
    ensures
        without_id(s, id) == s,
    decreases s.len(),
{
    reveal(Seq::filter);
    if s.len() > 0 {
        let front = s.drop_last();
        assert(!has_id(front, id)) by {
            if has_id(front, id) {
                let i = choose|i: int| 0 <= i < front.len() && (#[trigger] front[i]).id == id;
                assert(s[i].id == id);
            }
        }
        lemma_without_id_absent(front, id);
        assert(s.last() == s[s.len() - 1]);
        assert(front.push(s.last()) =~= s);
    }
}

/// Where the ids are distinct and the entry at `i` has the id, that entry is
/// the one taken out.
pub proof fn lemma_without_id_found(s: Seq<ClipView>, id: nat, i: int)
    requires
        ids_distinct(s),
        0 <= i < s.len(),
        s[i].id == id,
    ensures
        without_id(s, id) == s.remove(i),
    decreases s.len(),
{
    reveal(Seq::filter);
    let front = s.drop_last();
    if i == s.len() - 1 {
        assert(!has_id(front, id)) by {
            if has_id(front, id) {
                let j = choose|j: int| 0 <= j < front.len() && (#[trigger] front[j]).id == id;
                assert(s[j].id == id);
            }
        }
        lemma_without_id_absent(front, id);
        assert(s.remove(i) =~= front);
    } else {
        assert(ids_distinct(front)) by {
            assert forall|a: int, b: int| 0 <= a < b < front.len() implies (#[trigger] front[a]).id
                != (#[trigger] front[b]).id by {
                assert(front[a] == s[a] && front[b] == s[b]);
            }
        }
        lemma_without_id_found(front, id, i);
        assert(s.last() == s[s.len() - 1]);
        assert(s[i].id != s[s.len() - 1].id);
        assert(front.remove(i).push(s.last()) =~= s.remove(i));
    }
}

/// Setting the flag of a clip twice is setting it to the second value.
pub proof fn lemma_with_pinned_twice(s: Seq<ClipView>, id: nat, first: bool, second: bool)
    ensures
        with_pinned(with_pinned(s, id, first), id, second) == with_pinned(s, id, second),
{
    assert(with_pinned(with_pinned(s, id, first), id, second) =~= with_pinned(s, id, second));
}

/// Setting the flag of a clip changes that flag of that clip and nothing
/// else of it.
pub proof fn lemma_with_pinned_clip(s: Seq<ClipView>, id: nat, value: bool)
    requires
        ids_increasing(s),
        has_id(s, id),
    ensures
        has_id(with_pinned(s, id, value), id),
        has_pinned_id(with_pinned(s, id, value), id) == value,
        clip_with_id(with_pinned(s, id, value), id) == (ClipView {
            pinned: value,
            ..clip_with_id(s, id)
        }),
{
    let t = with_pinned(s, id, value);
    let at = choose|i: int| 0 <= i < s.len() && (#[trigger] s[i]).id == id;
    assert(t[at].id == id);
    let c = choose|c: int| 0 <= c < t.len() && (#[trigger] t[c]).id == id;
    assert(s[c].id == id);
    assert(c == at);
    if has_pinned_id(t, id) {
        let w = choose|w: int| 0 <= w < t.len() && (#[trigger] t[w]).id == id && t[w].pinned;
        assert(s[w].id == id);
        assert(w == at);
    }
    if value {
        assert(t[at].pinned);
    }
}

/// Clearing the flag of a clip that is not pinned changes nothing.
pub proof fn lemma_with_pinned_same(s: Seq<ClipView>, id: nat)
    requires
        !has_pinned_id(s, id),
    ensures
        with_pinned(s, id, false) == s,
{
    let t = with_pinned(s, id, false);
    assert forall|j: int| 0 <= j < s.len() implies t[j] == s[j] by {
        if s[j].id == id {
            assert(!s[j].pinned);
        }
    }
    assert(t =~= s);
}

/// Taking the entry `id` out leaves no entry with that id.
pub proof fn lemma_without_id_has_not(s: Seq<ClipView>, id: nat)
    ensures
        !has_id(without_id(s, id), id),
{
    let t = without_id(s, id);
    if has_id(t, id) {
        let k = choose|k: int| 0 <= k < t.len() && (#[trigger] t[k]).id == id;
        s.lemma_filter_pred(|c: ClipView| c.id != id, k);
    }
}

/// Taking the entry `id` out after it was pinned, for the first time or
/// again, gives what taking it out before the pin gives.
pub proof fn lemma_without_id_after_pin(s: Seq<ClipView>, id: nat, p: ClipView)
    requires
        ids_distinct(s),
        p.id == id,
    ensures
        has_id(s, id) ==> without_id(with_replaced(s, id, p), id) == without_id(s, id),
        !has_id(s, id) ==> without_id(s.push(p), id) == without_id(s, id),
{
    if has_id(s, id) {
        let k = choose|k: int| 0 <= k < s.len() && (#[trigger] s[k]).id == id;
        let t = with_replaced(s, id, p);
        assert(ids_distinct(t)) by {
            assert forall|a: int, b: int| 0 <= a < b < t.len() implies (#[trigger] t[a]).id != (
            #[trigger] t[b]).id by {
                assert(t[a].id == s[a].id && t[b].id == s[b].id);
            }
        }
        assert(t[k].id == id);
        lemma_without_id_found(t, id, k);
        lemma_without_id_found(s, id, k);
        assert forall|j: int| 0 <= j < s.len() && j != k implies t[j] == s[j] by {
            assert(s[j].id != s[k].id);
        }
        assert(t.remove(k) =~= s.remove(k));
    } else {
        let t = s.push(p);
        let k = s.len() as int;
        assert(ids_distinct(t)) by {
            assert forall|a: int, b: int| 0 <= a < b < t.len() implies (#[trigger] t[a]).id != (
            #[trigger] t[b]).id by {
                assert(t[a] == s[a]);
                if b < s.len() {
                    assert(t[b] == s[b]);
                }
            }
        }
        lemma_without_id_found(t, id, k);
        lemma_without_id_absent(s, id);
        assert(t.remove(k) =~= s);
    }
}

} // verus!
