//! Every operation keeps a well-formed store well formed.

use vstd::prelude::*;
use crate::clip::ClipView;
use crate::content::ContentView;
use crate::eviction::{lemma_drop_oldest_increasing, lemma_drop_oldest_members};
use crate::model::{
    excess, fresh_clip, has_id, has_pinned_id, ids_distinct, ids_increasing, snapshot_of, StoreView,
};
use crate::pinning::{lemma_without_id_absent, lemma_without_id_found};

verus! {

impl StoreView {
    /// An append keeps the store well formed.
    pub proof fn lemma_append_wf(self, content: ContentView)
        requires
            self.wf(),
        ensures
            self.append(content).wf(),
    {
        let fresh = fresh_clip(self.next_id, content);
        let all = self.clips.push(fresh);
        let n = excess(all, self.capacity);
        let after = self.append(content);
        assert(ids_increasing(all)) by {
            assert forall|i: int, j: int| 0 <= i < j < all.len() implies (#[trigger] all[i]).id < (
            #[trigger] all[j]).id by {
                assert(all[i] == self.clips[i]);
                if j < self.clips.len() {
                    assert(all[j] == self.clips[j]);
                }
            }
        }
        lemma_drop_oldest_increasing(all, n);
        lemma_drop_oldest_members(all, n);
        assert forall|k: int| 0 <= k < after.clips.len() implies (#[trigger] after.clips[k]).id
            < after.next_id && after.clips[k].content is Some && (after.clips[k].pinned ==> has_id(
            after.pins,
            after.clips[k].id,
        )) by {
            assert(all.contains(after.clips[k]));
            let i = choose|i: int| 0 <= i < all.len() && all[i] == after.clips[k];
            if i < self.clips.len() {
                assert(all[i] == self.clips[i]);
            }
        }
        assert forall|k: int| 0 <= k < after.pins.len() implies snapshot_of(
            after.clips,
            #[trigger] after.pins[k],
        ) by {
            let p = self.pins[k];
            assert(snapshot_of(self.clips, p));
            let i = choose|i: int|
                0 <= i < self.clips.len() && (#[trigger] self.clips[i]).id == p.id
                    && self.clips[i].pinned && self.clips[i].content == p.content;
            assert(all[i] == self.clips[i]);
            assert(after.clips.contains(all[i]));
            let j = choose|j: int| 0 <= j < after.clips.len() && after.clips[j] == all[i];
            assert(after.clips[j].id == p.id);
        }
    }

    /// Marking a clip as code keeps the store well formed.
    pub proof fn lemma_mark_code_wf(self, id: nat)
        requires
            self.wf(),
        ensures
            self.mark_code(id).wf(),
    {
        let after = self.mark_code(id);
        assert forall|k: int| 0 <= k < after.pins.len() implies snapshot_of(
            after.clips,
            #[trigger] after.pins[k],
        ) by {
            let p = self.pins[k];
            assert(snapshot_of(self.clips, p));
            let i = choose|i: int|
                0 <= i < self.clips.len() && (#[trigger] self.clips[i]).id == p.id
                    && self.clips[i].pinned && self.clips[i].content == p.content;
            assert(after.clips[i].id == p.id);
        }
        assert forall|i: int| 0 <= i < after.clips.len() && (#[trigger] after.clips[i]).pinned
            implies has_id(after.pins, after.clips[i].id) by {
            assert(self.clips[i].pinned);
        }
    }

    /// Pinning keeps the store well formed.
    pub proof fn lemma_pin_wf(self, id: nat)
        requires
            self.wf(),
        ensures
            self.pin(id).wf(),
    {
        if has_id(self.clips, id) {
            let after = self.pin(id);
            let at = choose|i: int|
                0 <= i < self.clips.len() && (#[trigger] self.clips[i]).id == id;
            let snapshot = ClipView { pinned: true, ..self.clips[at] };
            assert(after.clips[at].id == id && after.clips[at].pinned);
            assert(ids_distinct(after.pins)) by {
                assert forall|a: int, b: int| 0 <= a < b < after.pins.len() implies (
                #[trigger] after.pins[a]).id != (#[trigger] after.pins[b]).id by {
                    if has_id(self.pins, id) {
                        assert(after.pins[a].id == self.pins[a].id);
                        assert(after.pins[b].id == self.pins[b].id);
                    } else {
                        assert(after.pins[a] == self.pins[a]);
                        if b < self.pins.len() {
                            assert(after.pins[b] == self.pins[b]);
                        }
                    }
                }
            }
            assert forall|k: int| 0 <= k < after.pins.len() implies snapshot_of(
                after.clips,
                #[trigger] after.pins[k],
            ) by {
                if after.pins[k] == snapshot {
                    assert(after.clips[at].content == snapshot.content);
                } else {
                    let p = self.pins[k];
                    assert(after.pins[k] == p);
                    assert(snapshot_of(self.clips, p));
                    let i = choose|i: int|
                        0 <= i < self.clips.len() && (#[trigger] self.clips[i]).id == p.id
                            && self.clips[i].pinned && self.clips[i].content == p.content;
                    assert(after.clips[i].id == p.id && after.clips[i].pinned);
                }
            }
            assert forall|i: int| 0 <= i < after.clips.len() && (#[trigger] after.clips[i]).pinned
                implies has_id(after.pins, after.clips[i].id) by {
                if self.clips[i].id == id {
                    if has_id(self.pins, id) {
                        let k = choose|k: int|
                            0 <= k < self.pins.len() && (#[trigger] self.pins[k]).id == id;
                        assert(after.pins[k].id == id);
                    } else {
                        assert(after.pins[self.pins.len() as int].id == id);
                    }
                } else {
                    assert(self.clips[i].pinned);
                    let k = choose|k: int|
                        0 <= k < self.pins.len() && (#[trigger] self.pins[k]).id
                            == self.clips[i].id;
                    assert(after.pins[k].id == self.clips[i].id);
                }
            }
        }
    }

    /// Unpinning keeps the store well formed.
    pub proof fn lemma_unpin_wf(self, id: nat)
        requires
            self.wf(),
        ensures
            self.unpin(id).wf(),
    {
        let after = self.unpin(id);
        if has_id(self.pins, id) {
            let at = choose|k: int| 0 <= k < self.pins.len() && (#[trigger] self.pins[k]).id == id;
            lemma_without_id_found(self.pins, id, at);
            assert(after.pins == self.pins.remove(at));
            assert forall|k: int| 0 <= k < after.pins.len() implies (#[trigger] after.pins[k]).id
                != id && self.pins.contains(after.pins[k]) by {
                if k < at {
                    assert(after.pins[k] == self.pins[k]);
                } else {
                    assert(after.pins[k] == self.pins[k + 1]);
                }
            }
            assert(ids_distinct(after.pins)) by {
                assert forall|a: int, b: int| 0 <= a < b < after.pins.len() implies (
                #[trigger] after.pins[a]).id != (#[trigger] after.pins[b]).id by {
                    let aa = if a < at {
                        a
                    } else {
                        a + 1
                    };
                    let bb = if b < at {
                        b
                    } else {
                        b + 1
                    };
                    assert(after.pins[a] == self.pins[aa] && after.pins[b] == self.pins[bb]);
                }
            }
            assert forall|i: int| 0 <= i < after.clips.len() && (#[trigger] after.clips[i]).pinned
                implies has_id(after.pins, after.clips[i].id) by {
                assert(self.clips[i].pinned && self.clips[i].id != id);
                let k = choose|k: int|
                    0 <= k < self.pins.len() && (#[trigger] self.pins[k]).id == self.clips[i].id;
                if k < at {
                    assert(after.pins[k] == self.pins[k]);
                } else {
                    assert(after.pins[k - 1] == self.pins[k]);
                }
            }
        } else {
            lemma_without_id_absent(self.pins, id);
            assert forall|k: int| 0 <= k < after.pins.len() implies (#[trigger] after.pins[k]).id
                != id && self.pins.contains(after.pins[k]) by {
                assert(self.pins[k].id != id);
            }
            assert forall|i: int| 0 <= i < after.clips.len() && (#[trigger] after.clips[i]).pinned
                implies has_id(after.pins, after.clips[i].id) by {
                assert(self.clips[i].pinned);
            }
        }
        assert forall|k: int| 0 <= k < after.pins.len() implies snapshot_of(
            after.clips,
            #[trigger] after.pins[k],
        ) by {
            let p = after.pins[k];
            assert(self.pins.contains(p));
            let m = choose|m: int| 0 <= m < self.pins.len() && self.pins[m] == p;
            assert(snapshot_of(self.clips, self.pins[m]));
            let i = choose|i: int|
                0 <= i < self.clips.len() && (#[trigger] self.clips[i]).id == p.id
                    && self.clips[i].pinned && self.clips[i].content == p.content;
            assert(after.clips[i].id == p.id && after.clips[i].pinned);
        }
    }

    /// A pinned clip has its pinned snapshot.
    pub proof fn lemma_pinned_has_pin(self, id: nat)
        requires
            self.wf(),
            has_pinned_id(self.clips, id),
        ensures
            has_id(self.pins, id),
    {
        let i = choose|i: int|
            0 <= i < self.clips.len() && (#[trigger] self.clips[i]).id == id
                && self.clips[i].pinned;
        assert(has_id(self.pins, self.clips[i].id));
    }

    /// A clip that is not pinned has no pinned snapshot.
    pub proof fn lemma_unpinned_has_no_pin(self, id: nat)
        requires
            self.wf(),
            !has_pinned_id(self.clips, id),
        ensures
            !has_id(self.pins, id),
    {
        if has_id(self.pins, id) {
            let k = choose|k: int| 0 <= k < self.pins.len() && (#[trigger] self.pins[k]).id == id;
            assert(snapshot_of(self.clips, self.pins[k]));
        }
    }
}

} // verus!
