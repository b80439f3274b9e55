//! One entry of the history.

use vstd::prelude::*;
use crate::content::{content_of, ClipboardContent, ContentView};

verus! {

/// The mathematical value of a clip.
pub struct ClipView {
    pub id: nat,
    pub content: Option<ContentView>,
    pub is_code: bool,
    pub pinned: bool,
}

/// One recorded clipboard content with its flags.
///
/// `content` is `None` only in a placeholder that was never filled; the
/// history never records such a clip.
#[derive(Debug)]
pub struct Clip {
    pub id: u64,
    pub content: Option<ClipboardContent>,
    pub is_code: bool,
    pub pinned: bool,
}

impl View for Clip {
    type V = ClipView;

    open spec fn view(&self) -> ClipView {
        ClipView {
            id: self.id as nat,
            content: content_of(self.content),
            is_code: self.is_code,
            pinned: self.pinned,
        }
    }
}

impl Default for Clip {
    /// The placeholder: id 0, no content, no flag set.
    fn default() -> (r: Clip)
        ensures
            r@ == (ClipView { id: 0, content: None, is_code: false, pinned: false }),
    {
        Clip { id: 0, content: None, is_code: false, pinned: false }
    }
}

impl Clip {
    /// An independent copy of this clip, content included.
    pub fn duplicate(&self) -> (r: Clip)
        ensures
            r@ == self@,
    {
        let content: Option<ClipboardContent> = match &self.content {
            Some(c) => Some(c.duplicate()),
            None => None,
        };
        Clip { id: self.id, content, is_code: self.is_code, pinned: self.pinned }
    }
}

/// The values of a sequence of clips, in order.
pub open spec fn clip_views(clips: Seq<Clip>) -> Seq<ClipView> {
    Seq::new(clips.len(), |i: int| clips[i]@)
}

} // verus!
