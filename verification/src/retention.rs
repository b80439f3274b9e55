//! What an append keeps and what it drops, and what a pin followed by an
//! unpin leaves.

use vstd::prelude::*;
use crate::clip::ClipView;
use crate::content::ContentView;
use crate::eviction::{
    lemma_drop_oldest_contains, lemma_drop_oldest_count, lemma_drop_oldest_members,
    lemma_drop_oldest_without_pins, lemma_unpinned_count_push, lemma_unpinned_count_split,
};
use crate::model::{
    clip_with_id, excess, fresh_clip, has_id, has_pinned_id, ids_distinct, unpinned_count,
    with_pinned, without_id, StoreView,
};
use crate::pinning::{
    lemma_with_pinned_clip, lemma_with_pinned_same, lemma_with_pinned_twice,
    lemma_without_id_absent, lemma_without_id_after_pin, lemma_without_id_has_not,
};

verus! {

impl StoreView {
    /// Which clips an append leaves in the history. Of the clips before the
    /// append and the new one, a clip stays exactly if it is pinned, or is
    /// among the `capacity` newest unpinned clips: at most `capacity` unpinned
    /// clips stand at its place or after it. Nothing else comes in.
    pub proof fn lemma_append_survivors(self, content: ContentView, i: int)
        requires
            self.wf(),
            0 <= i <= self.clips.len(),
        ensures
            ({
                let all = self.clips.push(fresh_clip(self.next_id, content));
                &&& self.append(content).clips.contains(all[i]) <==> (all[i].pinned
                    || unpinned_count(all.skip(i)) <= self.capacity)
                &&& forall|k: int|
                    0 <= k < self.append(content).clips.len() ==> all.contains(
                        #[trigger] self.append(content).clips[k],
                    )
            }),
    {
        let all = self.clips.push(fresh_clip(self.next_id, content));
        let n = excess(all, self.capacity);
        assert(ids_distinct(all)) by {
            assert forall|a: int, b: int| 0 <= a < b < all.len() implies (#[trigger] all[a]).id != (
            #[trigger] all[b]).id by {
                assert(all[a] == self.clips[a]);
                if b < self.clips.len() {
                    assert(all[b] == self.clips[b]);
                }
            }
        }
        lemma_drop_oldest_contains(all, n, i);
        lemma_unpinned_count_split(all, i);
        lemma_drop_oldest_members(all, n);
    }

    /// After an append at most `capacity` clips of the history are unpinned,
    /// and as many are pinned as before: the history is never longer than
    /// its capacity and the number of its pinned clips together.
    pub proof fn lemma_append_bounds_unpinned(self, content: ContentView)
        requires
            self.wf(),
        ensures
            unpinned_count(self.append(content).clips) <= self.capacity,
            self.append(content).clips.len() - unpinned_count(self.append(content).clips)
                == self.clips.len() - unpinned_count(self.clips),
    {
        let all = self.clips.push(fresh_clip(self.next_id, content));
        lemma_drop_oldest_count(all, excess(all, self.capacity));
        lemma_unpinned_count_push(self.clips, fresh_clip(self.next_id, content));
    }

    /// Where no clip is pinned, an append keeps the `capacity` newest clips,
    /// the new one included, and no other.
    pub proof fn lemma_append_without_pins(self, content: ContentView)
        requires
            self.wf(),
            forall|i: int| 0 <= i < self.clips.len() ==> !(#[trigger] self.clips[i]).pinned,
        ensures
            ({
                let all = self.clips.push(fresh_clip(self.next_id, content));
                let kept = if all.len() <= self.capacity {
                    all.len()
                } else {
                    self.capacity
                };
                &&& self.append(content).clips == all.skip(all.len() - kept)
                &&& self.append(content).clips.len() == kept
                &&& self.append(content).pins == self.pins
            }),
    {
        let all = self.clips.push(fresh_clip(self.next_id, content));
        assert forall|i: int| 0 <= i < all.len() implies !(#[trigger] all[i]).pinned by {
            if i < self.clips.len() {
                assert(all[i] == self.clips[i]);
            }
        }
        lemma_drop_oldest_without_pins(all, 0);
        lemma_drop_oldest_without_pins(all, excess(all, self.capacity));
    }

    /// A pinned clip is still in the history, and still pinned, after an
    /// append, whatever the capacity.
    pub proof fn lemma_append_keeps_pinned(self, content: ContentView, id: nat)
        requires
            self.wf(),
            has_pinned_id(self.clips, id),
        ensures
            has_pinned_id(self.append(content).clips, id),
            self.append(content).clips.contains(clip_with_id(self.clips, id)),
            has_id(self.append(content).pins, id),
    {
        let all = self.clips.push(fresh_clip(self.next_id, content));
        let after = self.append(content);
        let i = choose|i: int|
            0 <= i < self.clips.len() && (#[trigger] self.clips[i]).id == id
                && self.clips[i].pinned;
        let c = choose|c: int| 0 <= c < self.clips.len() && (#[trigger] self.clips[c]).id == id;
        assert(c == i);
        assert(all[i] == self.clips[i]);
        lemma_drop_oldest_members(all, excess(all, self.capacity));
        assert(after.clips.contains(all[i]));
        let k = choose|k: int| 0 <= k < after.clips.len() && after.clips[k] == all[i];
        assert(after.clips[k].id == id && after.clips[k].pinned);
    }

    /// To pin a clip and then to unpin it clears its flag and takes it out
    /// of the pins, and leaves everything else as it was: the clip keeps its
    /// content and its code mark, and where it was not pinned before, the
    /// store is what it was.
    pub proof fn lemma_pin_then_unpin(self, id: nat)
        requires
            self.wf(),
            has_id(self.clips, id),
        ensures
            ({
                let after = self.pin(id).unpin(id);
                &&& has_id(after.clips, id)
                &&& clip_with_id(after.clips, id) == (ClipView {
                    pinned: false,
                    ..clip_with_id(self.clips, id)
                })
                &&& !has_id(after.pins, id)
                &&& !has_pinned_id(after.clips, id)
                &&& after.clips == with_pinned(self.clips, id, false)
                &&& after.pins == without_id(self.pins, id)
                &&& after.next_id == self.next_id
                &&& after.capacity == self.capacity
                &&& !has_pinned_id(self.clips, id) ==> after == self
            }),
    {
        let snapshot = ClipView { pinned: true, ..clip_with_id(self.clips, id) };
        lemma_with_pinned_twice(self.clips, id, true, false);
        lemma_with_pinned_clip(self.clips, id, false);
        lemma_without_id_after_pin(self.pins, id, snapshot);
        lemma_without_id_has_not(self.pins, id);
        if !has_pinned_id(self.clips, id) {
            lemma_with_pinned_same(self.clips, id);
            self.lemma_unpinned_has_no_pin(id);
            lemma_without_id_absent(self.pins, id);
        }
    }
}

} // verus!
