//! Deciding whether what was read from the clipboard is new.

use vstd::prelude::*;
use crate::content::{content_of, same_content, ClipboardContent, ContentView, RgbaImage};

verus! {

/// Whether `current` differs from `previous`: it does where there is no
/// previous content, and where the two are not the same content.
pub open spec fn differs(previous: Option<ContentView>, current: ContentView) -> bool {
    match previous {
        Some(p) => !same_content(p, current),
        None => true,
    }
}

/// Whether `current` differs from the content seen last.
///
/// Two texts are compared character by character, two images byte by byte; a
/// text and an image always differ, and so does anything from nothing.
pub fn changed(previous: &Option<ClipboardContent>, current: &ClipboardContent) -> (r: bool)
    ensures
        r == differs(content_of(*previous), current@),
{
    match previous {
        Some(p) => !p.same_as(current),
        None => true,
    }
}

/// What a read of the clipboard found, given what its two formats gave: the
/// text where there is one, else the image where there is one, else nothing.
pub fn select_content(text: Option<String>, image: Option<RgbaImage>) -> (r: Option<
    ClipboardContent,
>)
    ensures
        content_of(r) == match (text, image) {
            (Some(t), _) => Some(ContentView::Text(t@)),
            (None, Some(img)) => Some(ContentView::Image(img@)),
            (None, None) => None,
        },
{
    match text {
        Some(t) => Some(ClipboardContent::Text(t)),
        None => match image {
            Some(img) => Some(ClipboardContent::Image(img)),
            None => None,
        },
    }
}

/// The content to record, given the content recorded last and what the
/// clipboard holds now: the current content where there is one and it
/// differs from the last, else nothing.
pub fn clip_to_add(last: &Option<ClipboardContent>, current: Option<ClipboardContent>) -> (r:
    Option<ClipboardContent>)
    ensures
        content_of(r) == match current {
            Some(c) if differs(content_of(*last), c@) => Some(c@),
            _ => None,
        },
{
    match current {
        Some(c) => {
            if changed(last, &c) {
                Some(c)
            } else {
                None
            }
        },
        None => None,
    }
}

} // verus!
