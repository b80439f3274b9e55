//! The history as a mathematical value, and what each operation makes of it.

use vstd::prelude::*;
use crate::clip::ClipView;
use crate::content::ContentView;

verus! {

/// The mathematical value of a history store.
pub struct StoreView {
    /// The recorded clips, oldest first.
    pub clips: Seq<ClipView>,
    /// The pinned snapshots, in the order in which the pins were made.
    pub pins: Seq<ClipView>,
    /// The id that the next clip will get.
    pub next_id: nat,
    /// How many unpinned clips the store keeps.
    pub capacity: nat,
}

/// Ids grow strictly from the front to the back.
pub open spec fn ids_increasing(s: Seq<ClipView>) -> bool {
    forall|i: int, j: int| 0 <= i < j < s.len() ==> (#[trigger] s[i]).id < (#[trigger] s[j]).id
}

/// No id occurs twice.
pub open spec fn ids_distinct(s: Seq<ClipView>) -> bool {
    forall|i: int, j: int| 0 <= i < j < s.len() ==> (#[trigger] s[i]).id != (#[trigger] s[j]).id
}

/// Some clip of `s` has the id `id`.
pub open spec fn has_id(s: Seq<ClipView>, id: nat) -> bool {
    exists|i: int| 0 <= i < s.len() && (#[trigger] s[i]).id == id
}

/// Some clip of `s` has the id `id` and is pinned.
pub open spec fn has_pinned_id(s: Seq<ClipView>, id: nat) -> bool {
    exists|i: int| 0 <= i < s.len() && (#[trigger] s[i]).id == id && s[i].pinned
}

/// `p` is a pinned snapshot of a clip of `s`: a pinned clip of `s` has its id
/// and its content.
pub open spec fn snapshot_of(s: Seq<ClipView>, p: ClipView) -> bool {
    &&& p.pinned
    &&& exists|i: int|
        0 <= i < s.len() && (#[trigger] s[i]).id == p.id && s[i].pinned && s[i].content
            == p.content
}

/// The clip of `s` with the id `id`, where there is one.
pub open spec fn clip_with_id(s: Seq<ClipView>, id: nat) -> ClipView {
    s[choose|i: int| 0 <= i < s.len() && (#[trigger] s[i]).id == id]
}

/// How many clips of `s` are not pinned.
pub open spec fn unpinned_count(s: Seq<ClipView>) -> nat
    decreases s.len(),
{
    if s.len() == 0 {
        0
    } else if s[0].pinned {
        unpinned_count(s.drop_first())
    } else {
        1 + unpinned_count(s.drop_first())
    }
}

/// `s` without its `n` oldest unpinned clips (without all of its unpinned
/// clips, where it has fewer). Pinned clips stay, and the order stays.
pub open spec fn drop_oldest_unpinned(s: Seq<ClipView>, n: nat) -> Seq<ClipView>
    decreases s.len(),
{
    if n == 0 || s.len() == 0 {
        s
    } else if s[0].pinned {
        seq![s[0]] + drop_oldest_unpinned(s.drop_first(), n)
    } else {
        drop_oldest_unpinned(s.drop_first(), (n - 1) as nat)
    }
}

/// By how many clips the unpinned part of `s` exceeds `capacity`.
pub open spec fn excess(s: Seq<ClipView>, capacity: nat) -> nat {
    if unpinned_count(s) > capacity {
        (unpinned_count(s) - capacity) as nat
    } else {
        0
    }
}

/// `s` with the `pinned` flag of the clip `id` set to `value`.
pub open spec fn with_pinned(s: Seq<ClipView>, id: nat, value: bool) -> Seq<ClipView> {
    Seq::new(
        s.len(),
        |i: int|
            if s[i].id == id {
                ClipView { pinned: value, ..s[i] }
            } else {
                s[i]
            },
    )
}

/// `s` with the clip `id` marked as code.
pub open spec fn with_code(s: Seq<ClipView>, id: nat) -> Seq<ClipView> {
    Seq::new(
        s.len(),
        |i: int|
            if s[i].id == id {
                ClipView { is_code: true, ..s[i] }
            } else {
                s[i]
            },
    )
}

/// `s` with the entry `id` replaced by `p`, in its place.
pub open spec fn with_replaced(s: Seq<ClipView>, id: nat, p: ClipView) -> Seq<ClipView> {
    Seq::new(
        s.len(),
        |i: int|
            if s[i].id == id {
                p
            } else {
                s[i]
            },
    )
}

/// `s` without the entries whose id is `id`.
pub open spec fn without_id(s: Seq<ClipView>, id: nat) -> Seq<ClipView> {
    s.filter(|c: ClipView| c.id != id)
}

/// The text of the clip `id` of `s`; `None` where no clip has that id or the
/// clip holds no text.
pub open spec fn text_of(s: Seq<ClipView>, id: nat) -> Option<Seq<char>> {
    if has_id(s, id) {
        match clip_with_id(s, id).content {
            Some(ContentView::Text(t)) => Some(t),
            _ => None,
        }
    } else {
        None
    }
}

/// The text of the newest clip of `s`; the empty text where `s` is empty or
/// its newest clip holds no text.
pub open spec fn latest_text(s: Seq<ClipView>) -> Seq<char> {
    if s.len() > 0 {
        match s.last().content {
            Some(ContentView::Text(t)) => t,
            _ => Seq::empty(),
        }
    } else {
        Seq::empty()
    }
}

/// The clip that an append to a store whose next id is `id` creates.
pub open spec fn fresh_clip(id: nat, content: ContentView) -> ClipView {
    ClipView { id, content: Some(content), is_code: false, pinned: false }
}

impl StoreView {
    /// The empty store of the given capacity.
    pub open spec fn empty(capacity: nat) -> StoreView {
        StoreView { clips: Seq::empty(), pins: Seq::empty(), next_id: 0, capacity }
    }

    /// What holds of every store:
    /// ids grow with the position and stay below `next_id`; every clip has a
    /// content; no id is pinned twice; every pin is a snapshot of a pinned clip of
    /// the history, and every pinned clip of the history has its pin.
    pub open spec fn wf(self) -> bool {
        &&& ids_increasing(self.clips)
        &&& forall|i: int|
            0 <= i < self.clips.len() ==> (#[trigger] self.clips[i]).id < self.next_id
        &&& forall|i: int| 0 <= i < self.clips.len() ==> (#[trigger] self.clips[i]).content is Some
        &&& ids_distinct(self.pins)
        &&& forall|k: int|
            0 <= k < self.pins.len() ==> snapshot_of(self.clips, #[trigger] self.pins[k])
        &&& forall|i: int|
            0 <= i < self.clips.len() && (#[trigger] self.clips[i]).pinned ==> has_id(
                self.pins,
                self.clips[i].id,
            )
    }

    /// The store after `content` was appended: the new clip gets `next_id`
    /// and stands last; then the oldest unpinned clips leave until at most
    /// `capacity` unpinned clips are left. Pinned clips neither leave nor count.
    pub open spec fn append(self, content: ContentView) -> StoreView {
        let all = self.clips.push(fresh_clip(self.next_id, content));
        StoreView {
            clips: drop_oldest_unpinned(all, excess(all, self.capacity)),
            next_id: self.next_id + 1,
            ..self
        }
    }

    /// The store after the clip `id` was marked as code. The pinned snapshots
    /// keep the flag they were taken with.
    pub open spec fn mark_code(self, id: nat) -> StoreView {
        StoreView { clips: with_code(self.clips, id), ..self }
    }

    /// The store after the clip `id` was pinned: nothing changes where no clip
    /// has that id; else the clip is flagged, and its snapshot, taken now,
    /// replaces the earlier one in its place or, where there was none, comes last.
    pub open spec fn pin(self, id: nat) -> StoreView {
        if has_id(self.clips, id) {
            let snapshot = ClipView { pinned: true, ..clip_with_id(self.clips, id) };
            StoreView {
                clips: with_pinned(self.clips, id, true),
                pins: if has_id(self.pins, id) {
                    with_replaced(self.pins, id, snapshot)
                } else {
                    self.pins.push(snapshot)
                },
                ..self
            }
        } else {
            self
        }
    }

    /// The store after the clip `id` was unpinned: its snapshot is gone and
    /// its flag is cleared.
    pub open spec fn unpin(self, id: nat) -> StoreView {
        StoreView {
            clips: with_pinned(self.clips, id, false),
            pins: without_id(self.pins, id),
            ..self
        }
    }
}

} // verus!
