//! The history store: the recorded clips, oldest first, and the pinned
//! snapshots.

use vstd::prelude::*;
use crate::clip::{clip_views, Clip, ClipView};
use crate::content::ClipboardContent;
use crate::eviction::{
    lemma_drop_oldest_step, lemma_unpinned_count_after_pinned_prefix, lemma_unpinned_count_remove,
    lemma_unpinned_count_skip,
};
use crate::model::{
    drop_oldest_unpinned, fresh_clip, has_id, latest_text, text_of, unpinned_count, with_code,
    with_pinned, with_replaced, StoreView,
};
use crate::pinning::{lemma_without_id_absent, lemma_without_id_found};

verus! {

/// The ordered, bounded history of clips together with its pins.
///
/// The store keeps every pinned clip, and of the unpinned clips the
/// `capacity` newest: a pinned clip neither leaves nor counts.
pub struct HistoryStore {
    clips: Vec<Clip>,
    pins: Vec<Clip>,
    next_id: u64,
    capacity: usize,
}

impl View for HistoryStore {
    type V = StoreView;

    closed spec fn view(&self) -> StoreView {
        StoreView {
            clips: clip_views(self.clips@),
            pins: clip_views(self.pins@),
            next_id: self.next_id as nat,
            capacity: self.capacity as nat,
        }
    }
}

/// The position of the clip with the id `id`, if there is one.
fn find_index(clips: &Vec<Clip>, id: u64) -> (r: Option<usize>)
    ensures
        r is Some <==> has_id(clip_views(clips@), id as nat),
        r matches Some(i) ==> i < clips@.len() && clips@[i as int].id == id,
{
    let mut i: usize = 0;
    while i < clips.len()
        invariant
            i <= clips@.len(),
            forall|j: int| 0 <= j < i ==> clips@[j].id != id,
        decreases clips@.len() - i,
    {
        if clips[i].id == id {
            assert(clip_views(clips@)[i as int].id == id as nat);
            return Some(i);
        }
        i += 1;
    }
    assert(!has_id(clip_views(clips@), id as nat)) by {
        if has_id(clip_views(clips@), id as nat) {
            let j = choose|j: int|
                0 <= j < clip_views(clips@).len() && (#[trigger] clip_views(clips@)[j]).id
                    == id as nat;
            assert(clips@[j].id != id);
        }
    }
    None
}

/// How many of the clips are not pinned.
fn count_unpinned(clips: &Vec<Clip>) -> (r: usize)
    ensures
        r == unpinned_count(clip_views(clips@)),
{
    let ghost views = clip_views(clips@);
    let mut count: usize = 0;
    let mut i: usize = 0;
    proof {
        assert(views.skip(0) =~= views);
    }
    while i < clips.len()
        invariant
            views == clip_views(clips@),
            i <= clips@.len(),
            count <= i,
            count + unpinned_count(views.skip(i as int)) == unpinned_count(views),
        decreases clips@.len() - i,
    {
        proof {
            lemma_unpinned_count_skip(views, i as int);
        }
        if !clips[i].pinned {
            count += 1;
        }
        i += 1;
    }
    proof {
        assert(views.skip(i as int) =~= Seq::<ClipView>::empty());
    }
    count
}

/// Takes the `n` oldest unpinned clips out.
fn evict_oldest(clips: &mut Vec<Clip>, n: usize)
    requires
        n <= unpinned_count(clip_views(old(clips)@)),
    ensures
        clip_views(final(clips)@) == drop_oldest_unpinned(clip_views(old(clips)@), n as nat),
{
    let ghost start = clip_views(clips@);
    let mut i: usize = 0;
    let mut left: usize = n;
    while left > 0
        invariant
            i <= clips@.len(),
            forall|j: int| 0 <= j < i ==> (#[trigger] clip_views(clips@)[j]).pinned,
            left <= unpinned_count(clip_views(clips@)),
            drop_oldest_unpinned(clip_views(clips@), left as nat) == drop_oldest_unpinned(
                start,
                n as nat,
            ),
        decreases clips@.len() - i + left,
    {
        let ghost before = clip_views(clips@);
        let len: usize = clips.len();
        proof {
            lemma_unpinned_count_after_pinned_prefix(before, i as int);
            if i == clips@.len() {
                assert(before.skip(i as int) =~= Seq::<ClipView>::empty());
            }
            assert(i < len);
        }
        if clips[i].pinned {
            i += 1;
        } else {
            clips.remove(i);
            left -= 1;
            proof {
                assert(clip_views(clips@) =~= before.remove(i as int));
                lemma_drop_oldest_step(before, i as int, (left + 1) as nat);
                lemma_unpinned_count_remove(before, i as int);
            }
        }
    }
}

/// Independent copies of the clips, in order.
fn duplicate_all(clips: &Vec<Clip>) -> (r: Vec<Clip>)
    ensures
        clip_views(r@) == clip_views(clips@),
{
    let mut out: Vec<Clip> = Vec::new();
    let mut i: usize = 0;
    while i < clips.len()
        invariant
            i <= clips@.len(),
            out@.len() == i,
            forall|j: int| 0 <= j < i ==> out@[j]@ == clips@[j]@,
        decreases clips@.len() - i,
    {
        out.push(clips[i].duplicate());
        i += 1;
    }
    assert(clip_views(out@) =~= clip_views(clips@));
    out
}

impl HistoryStore {
    /// What holds of every store; see [`StoreView::wf`].
    pub open spec fn wf(&self) -> bool {
        self@.wf()
    }

    /// An empty store that keeps at most `capacity` unpinned clips.
    pub fn new(capacity: usize) -> (r: HistoryStore)
        ensures
            r.wf(),
            r@ == StoreView::empty(capacity as nat),
    {
        let r = HistoryStore { clips: Vec::new(), pins: Vec::new(), next_id: 0, capacity };
        assert(r@.clips =~= Seq::<ClipView>::empty());
        assert(r@.pins =~= Seq::<ClipView>::empty());
        r
    }

    /// Records `content` as a new clip and returns its id.
    ///
    /// The clip gets the next id, is neither pinned nor marked as code, and
    /// stands last. Then the oldest unpinned clips leave until at most
    /// `capacity` unpinned clips are left; no pinned clip ever leaves.
    pub fn append(&mut self, content: ClipboardContent) -> (id: u64)
        requires
            old(self).wf(),
            old(self)@.next_id < u64::MAX,
        ensures
            final(self).wf(),
            id == old(self)@.next_id,
            final(self)@ == old(self)@.append(content@),
    {
        let id: u64 = self.next_id;
        self.clips.push(Clip { id, content: Some(content), is_code: false, pinned: false });
        self.next_id = id + 1;
        let ghost all = clip_views(self.clips@);
        assert(all =~= old(self)@.clips.push(fresh_clip(id as nat, content@)));
        let unpinned: usize = count_unpinned(&self.clips);
        if unpinned > self.capacity {
            evict_oldest(&mut self.clips, unpinned - self.capacity);
        }
        proof {
            old(self)@.lemma_append_wf(content@);
        }
        id
    }

    /// Marks the clip `id` as code. Marking twice is marking once, and an id
    /// that is not in the history changes nothing.
    pub fn mark_code(&mut self, id: u64)
        requires
            old(self).wf(),
        ensures
            final(self).wf(),
            final(self)@ == old(self)@.mark_code(id as nat),
    {
        match find_index(&self.clips, id) {
            Some(i) => {
                self.clips[i].is_code = true;
                proof {
                    let before = old(self)@.clips;
                    assert forall|j: int| 0 <= j < before.len() implies (#[trigger] self@.clips[j])
                        == with_code(before, id as nat)[j] by {
                        assert(before[i as int].id == id);
                        assert(before[j] == old(self).clips@[j]@);
                    }
                }
            },
            None => {
                proof {
                    let before = old(self)@.clips;
                    assert forall|j: int| 0 <= j < before.len() implies (#[trigger] self@.clips[j])
                        == with_code(before, id as nat)[j] by {
                        assert(before[j].id != id);
                    }
                }
            },
        }
        proof {
            assert(self@.clips =~= with_code(old(self)@.clips, id as nat));
            old(self)@.lemma_mark_code_wf(id as nat);
        }
    }

    /// A copy of the history, oldest clip first.
    pub fn get_snapshot(&self) -> (r: Vec<Clip>)
        ensures
            clip_views(r@) == self@.clips,
    {
        duplicate_all(&self.clips)
    }

    /// A copy of the pinned snapshots, in the order in which the pins were
    /// made.
    pub fn list_pinned(&self) -> (r: Vec<Clip>)
        ensures
            clip_views(r@) == self@.pins,
    {
        duplicate_all(&self.pins)
    }

    /// Pins the clip `id` and says whether the history holds such a clip.
    ///
    /// Where it does, the clip is flagged and a copy of it, as it is now, is
    /// kept as its pinned snapshot: in place of the earlier snapshot if the
    /// clip was pinned before, else after the other pins. Where it does not,
    /// nothing changes.
    pub fn pin(&mut self, id: u64) -> (found: bool)
        requires
            old(self).wf(),
        ensures
            final(self).wf(),
            found == has_id(old(self)@.clips, id as nat),
            final(self)@ == old(self)@.pin(id as nat),
    {
        let ghost before = self@;
        match find_index(&self.clips, id) {
            None => false,
            Some(i) => {
                self.clips[i].pinned = true;
                let snapshot: Clip = self.clips[i].duplicate();
                proof {
                    assert(before.clips[i as int].id == id);
                    let c = choose|c: int|
                        0 <= c < before.clips.len() && (#[trigger] before.clips[c]).id == id as nat;
                    assert(c == i);
                    assert(snapshot@ == (ClipView { pinned: true, ..before.clips[i as int] }));
                    assert forall|j: int| 0 <= j < before.clips.len() implies (
                    #[trigger] self@.clips[j]) == with_pinned(before.clips, id as nat, true)[j] by {
                        assert(before.clips[j] == old(self).clips@[j]@);
                    }
                    assert(self@.clips =~= with_pinned(before.clips, id as nat, true));
                }
                match find_index(&self.pins, id) {
                    Some(k) => {
                        self.pins[k] = snapshot;
                        proof {
                            assert(before.pins[k as int].id == id);
                            assert forall|j: int| 0 <= j < before.pins.len() implies (
                            #[trigger] self@.pins[j]) == with_replaced(
                                before.pins,
                                id as nat,
                                snapshot@,
                            )[j] by {
                                assert(before.pins[j] == old(self).pins@[j]@);
                            }
                            assert(self@.pins =~= with_replaced(before.pins, id as nat, snapshot@));
                        }
                    },
                    None => {
                        self.pins.push(snapshot);
                        proof {
                            assert(self@.pins =~= before.pins.push(snapshot@));
                        }
                    },
                }
                proof {
                    before.lemma_pin_wf(id as nat);
                }
                true
            },
        }
    }

    /// Unpins the clip `id`: its pinned snapshot is dropped and its flag in
    /// the history is cleared. An id that is not pinned changes nothing.
    pub fn unpin(&mut self, id: u64)
        requires
            old(self).wf(),
        ensures
            final(self).wf(),
            final(self)@ == old(self)@.unpin(id as nat),
    {
        let ghost before = self@;
        match find_index(&self.pins, id) {
            Some(k) => {
                self.pins.remove(k);
                proof {
                    lemma_without_id_found(before.pins, id as nat, k as int);
                    assert(self@.pins =~= before.pins.remove(k as int));
                }
            },
            None => {
                proof {
                    lemma_without_id_absent(before.pins, id as nat);
                }
            },
        }
        match find_index(&self.clips, id) {
            Some(i) => {
                self.clips[i].pinned = false;
                proof {
                    assert(before.clips[i as int].id == id);
                    assert forall|j: int| 0 <= j < before.clips.len() implies (
                    #[trigger] self@.clips[j]) == with_pinned(before.clips, id as nat, false)[j]
                    by {
                        assert(before.clips[j] == old(self).clips@[j]@);
                    }
                }
            },
            None => {
                proof {
                    assert forall|j: int| 0 <= j < before.clips.len() implies (
                    #[trigger] self@.clips[j]) == with_pinned(before.clips, id as nat, false)[j]
                    by {
                        assert(before.clips[j].id != id);
                    }
                }
            },
        }
        proof {
            assert(self@.clips =~= with_pinned(before.clips, id as nat, false));
            before.lemma_unpin_wf(id as nat);
        }
    }

    /// The text to put back on the clipboard for the clip `id`: a copy of its
    /// text, or `None` where the history holds no such clip or the clip is an
    /// image.
    pub fn text_to_copy(&self, id: u64) -> (r: Option<String>)
        requires
            self.wf(),
        ensures
            match text_of(self@.clips, id as nat) {
                Some(t) => r matches Some(s) && s@ == t,
                None => r is None,
            },
    {
        match find_index(&self.clips, id) {
            None => None,
            Some(i) => {
                proof {
                    let views = self@.clips;
                    assert(views[i as int].id == id);
                    let c = choose|c: int|
                        0 <= c < views.len() && (#[trigger] views[c]).id == id as nat;
                    assert(c == i);
                }
                match &self.clips[i].content {
                    Some(ClipboardContent::Text(t)) => Some(t.clone()),
                    _ => None,
                }
            },
        }
    }

    /// A copy of the text of the newest clip; the empty text where the
    /// history is empty or its newest clip is an image.
    pub fn latest_text(&self) -> (r: String)
        ensures
            r@ == latest_text(self@.clips),
    {
        let n: usize = self.clips.len();
        if n == 0 {
            return String::new();
        }
        assert(self@.clips.last() == self.clips@[n - 1]@);
        match &self.clips[n - 1].content {
            Some(ClipboardContent::Text(t)) => t.clone(),
            _ => String::new(),
        }
    }

    /// Whether the history holds a clip with the id `id`.
    pub fn contains(&self, id: u64) -> (r: bool)
        ensures
            r == has_id(self@.clips, id as nat),
    {
        find_index(&self.clips, id).is_some()
    }

    /// Whether the clip `id` is pinned.
    pub fn is_pinned(&self, id: u64) -> (r: bool)
        ensures
            r == has_id(self@.pins, id as nat),
    {
        find_index(&self.pins, id).is_some()
    }

    /// How many clips the history holds.
    pub fn len(&self) -> (r: usize)
        ensures
            r == self@.clips.len(),
    {
        self.clips.len()
    }

    /// Whether the history holds no clip.
    pub fn is_empty(&self) -> (r: bool)
        ensures
            r == (self@.clips.len() == 0),
    {
        self.clips.len() == 0
    }

    /// How many unpinned clips the store keeps.
    pub fn capacity(&self) -> (r: usize)
        ensures
            r == self@.capacity,
    {
        self.capacity
    }

    /// The id that the next clip will get.
    pub fn next_id(&self) -> (r: u64)
        ensures
            r == self@.next_id,
    {
        self.next_id
    }
}

} // verus!
