//! What holds of a history after any sequence of operations.

use vstd::prelude::*;
use crate::clip::ClipView;
use crate::content::ContentView;
use crate::model::{clip_with_id, fresh_clip, has_id, has_pinned_id, StoreView};

verus! {

/// One operation on a history store.
pub enum Op {
    Append(ContentView),
    MarkCode(nat),
    Pin(nat),
    Unpin(nat),
}

/// The store after one operation.
pub open spec fn apply(v: StoreView, op: Op) -> StoreView {
    match op {
        Op::Append(content) => v.append(content),
        Op::MarkCode(id) => v.mark_code(id),
        Op::Pin(id) => v.pin(id),
        Op::Unpin(id) => v.unpin(id),
    }
}

/// The store after the operations `ops`, one after the other.
pub open spec fn run(v: StoreView, ops: Seq<Op>) -> StoreView
    decreases ops.len(),
{
    if ops.len() == 0 {
        v
    } else {
        apply(run(v, ops.drop_last()), ops.last())
    }
}

/// The store after the first `n + 1` operations is the store after the
/// first `n`, with one more operation applied.
pub proof fn lemma_run_step(v: StoreView, ops: Seq<Op>, n: int)
    requires
        0 <= n < ops.len(),
    ensures
        run(v, ops.take(n + 1)) == apply(run(v, ops.take(n)), ops[n]),
{
    assert(ops.take(n + 1).drop_last() =~= ops.take(n));
}

/// Every operation keeps the store well formed.
pub proof fn lemma_apply_wf(v: StoreView, op: Op)
    requires
        v.wf(),
    ensures
        apply(v, op).wf(),
{
    match op {
        Op::Append(content) => v.lemma_append_wf(content),
        Op::MarkCode(id) => v.lemma_mark_code_wf(id),
        Op::Pin(id) => v.lemma_pin_wf(id),
        Op::Unpin(id) => v.lemma_unpin_wf(id),
    }
}

/// Whatever is done to a well-formed store, it stays well formed: the ids
/// of its clips grow from the oldest to the newest, none occurs twice, and
/// a clip has a pinned snapshot exactly if it is flagged as pinned.
pub proof fn lemma_run_wf(v: StoreView, ops: Seq<Op>)
    requires
        v.wf(),
    ensures
        run(v, ops).wf(),
    decreases ops.len(),
{
    if ops.len() > 0 {
        lemma_run_wf(v, ops.drop_last());
        lemma_apply_wf(run(v, ops.drop_last()), ops.last());
    }
}

/// The id that an append gets is the `next_id` of the store it is applied
/// to. That number never goes down, and every append raises it: of two
/// appends in a sequence of operations the later gets the larger id, so no
/// id is given twice.
pub proof fn lemma_ids_grow(v: StoreView, ops: Seq<Op>, i: int, j: int)
    requires
        0 <= i <= j <= ops.len(),
    ensures
        run(v, ops.take(i)).next_id <= run(v, ops.take(j)).next_id,
        i < j && ops[i] is Append ==> run(v, ops.take(i)).next_id < run(v, ops.take(j)).next_id,
    decreases j - i,
{
    if i < j {
        lemma_ids_grow(v, ops, i, j - 1);
        lemma_run_step(v, ops, j - 1);
    }
}

/// Every clip of a well-formed store has an id below the id that the next
/// append gets: a new clip never takes the id of a clip that is there.
pub proof fn lemma_fresh_id_is_new(v: StoreView, content: ContentView)
    requires
        v.wf(),
    ensures
        !has_id(v.clips, v.next_id),
        has_id(v.append(content).clips, v.next_id) ==> clip_with_id(
            v.append(content).clips,
            v.next_id,
        ) == fresh_clip(v.next_id, content),
{
    if has_id(v.clips, v.next_id) {
        let i = choose|i: int| 0 <= i < v.clips.len() && (#[trigger] v.clips[i]).id == v.next_id;
        assert(v.clips[i].id < v.next_id);
    }
    let after = v.append(content);
    if has_id(after.clips, v.next_id) {
        let all = v.clips.push(fresh_clip(v.next_id, content));
        let c = choose|c: int|
            0 <= c < after.clips.len() && (#[trigger] after.clips[c]).id == v.next_id;
        v.lemma_append_survivors(content, 0);
        assert(all.contains(after.clips[c]));
        let k = choose|k: int| 0 <= k < all.len() && all[k] == after.clips[c];
        if k < v.clips.len() {
            assert(all[k] == v.clips[k]);
            assert(v.clips[k].id < v.next_id);
        }
    }
}

/// One operation other than the unpinning of the clip `id` leaves that clip
/// in the history, pinned, with the content it had.
pub proof fn lemma_apply_keeps_pinned(v: StoreView, op: Op, id: nat)
    requires
        v.wf(),
        has_pinned_id(v.clips, id),
        op != Op::Unpin(id),
    ensures
        has_pinned_id(apply(v, op).clips, id),
        has_id(apply(v, op).pins, id),
        clip_with_id(apply(v, op).clips, id).content == clip_with_id(v.clips, id).content,
{
    let after = apply(v, op);
    lemma_apply_wf(v, op);
    let i = choose|i: int|
        0 <= i < v.clips.len() && (#[trigger] v.clips[i]).id == id && v.clips[i].pinned;
    let c = choose|c: int| 0 <= c < v.clips.len() && (#[trigger] v.clips[c]).id == id;
    assert(c == i);
    match op {
        Op::Append(content) => {
            v.lemma_append_keeps_pinned(content, id);
            let k = choose|k: int|
                0 <= k < after.clips.len() && after.clips[k] == clip_with_id(v.clips, id);
            let w = choose|w: int|
                0 <= w < after.clips.len() && (#[trigger] after.clips[w]).id == id;
            assert(after.clips[k].id == id);
            assert(w == k);
        },
        Op::MarkCode(x) => {
            assert(after.clips[i].id == id && after.clips[i].pinned);
            let w = choose|w: int|
                0 <= w < after.clips.len() && (#[trigger] after.clips[w]).id == id;
            assert(w == i);
        },
        Op::Pin(x) => {
            if has_id(v.clips, x) {
                assert(after.clips[i].id == id && after.clips[i].pinned);
                let w = choose|w: int|
                    0 <= w < after.clips.len() && (#[trigger] after.clips[w]).id == id;
                assert(w == i);
            }
        },
        Op::Unpin(x) => {
            assert(x != id);
            assert(after.clips[i].id == id && after.clips[i].pinned);
            let w = choose|w: int|
                0 <= w < after.clips.len() && (#[trigger] after.clips[w]).id == id;
            assert(w == i);
        },
    }
}

/// A pinned clip stays in the history, pinned and with its content, through
/// any sequence of operations in which it is not unpinned, however many
/// clips are appended and whatever the capacity.
pub proof fn lemma_pinned_clip_stays(v: StoreView, ops: Seq<Op>, id: nat)
    requires
        v.wf(),
        has_pinned_id(v.clips, id),
        forall|k: int| 0 <= k < ops.len() ==> #[trigger] ops[k] != Op::Unpin(id),
    ensures
        has_pinned_id(run(v, ops).clips, id),
        has_id(run(v, ops).pins, id),
        clip_with_id(run(v, ops).clips, id).content == clip_with_id(v.clips, id).content,
    decreases ops.len(),
{
    if ops.len() > 0 {
        let front = ops.drop_last();
        assert forall|k: int| 0 <= k < front.len() implies #[trigger] front[k] != Op::Unpin(id) by {
            assert(front[k] == ops[k]);
        }
        lemma_pinned_clip_stays(v, front, id);
        lemma_run_wf(v, front);
        lemma_apply_keeps_pinned(run(v, front), ops.last(), id);
    } else {
        v.lemma_pinned_has_pin(id);
    }
}

/// The appends of the contents `contents`, in order.
pub open spec fn appends(contents: Seq<ContentView>) -> Seq<Op> {
    Seq::new(contents.len(), |i: int| Op::Append(contents[i]))
}

/// The clips that the `capacity` last of `contents` make when they are
/// appended to an empty store: the content at the position `i` has the id `i`.
pub open spec fn newest(contents: Seq<ContentView>, capacity: nat) -> Seq<ClipView> {
    let kept = if contents.len() <= capacity {
        contents.len()
    } else {
        capacity
    };
    Seq::new(
        kept,
        |k: int|
            fresh_clip((contents.len() - kept + k) as nat, contents[contents.len() - kept + k]),
    )
}

/// After any number of appends to an empty store, with no pin, the history
/// holds at most `capacity` clips: the `capacity` last that were appended,
/// in their order, and no other.
pub proof fn lemma_appends_keep_newest(capacity: nat, contents: Seq<ContentView>)
    ensures
        run(StoreView::empty(capacity), appends(contents)) == (StoreView {
            clips: newest(contents, capacity),
            pins: Seq::empty(),
            next_id: contents.len(),
            capacity,
        }),
        newest(contents, capacity).len() <= capacity,
    decreases contents.len(),
{
    let ops = appends(contents);
    if contents.len() == 0 {
        assert(newest(contents, capacity) =~= Seq::<ClipView>::empty());
    } else {
        let front = contents.drop_last();
        let n = contents.len() as int;
        assert(ops.drop_last() =~= appends(front));
        lemma_appends_keep_newest(capacity, front);
        let before = run(StoreView::empty(capacity), appends(front));
        assert(StoreView::empty(capacity).wf());
        lemma_run_wf(StoreView::empty(capacity), appends(front));
        before.lemma_append_without_pins(contents.last());
        let after = before.append(contents.last());
        assert(ops.last() == Op::Append(contents.last()));
        assert(after.clips =~= newest(contents, capacity)) by {
            let all = before.clips.push(fresh_clip(before.next_id, contents.last()));
            assert forall|k: int| 0 <= k < after.clips.len() implies after.clips[k] == newest(
                contents,
                capacity,
            )[k] by {
                let at = all.len() - after.clips.len() + k;
                assert(after.clips[k] == all[at]);
                if at < before.clips.len() {
                    assert(all[at] == before.clips[at]);
                    assert(front[n - 1 - before.clips.len() + at] == contents[n - 1
                        - before.clips.len() + at]);
                }
            }
        }
    }
}

} // verus!
