//! What a clipboard can hold: text, or a raw RGBA pixel buffer.

use vstd::prelude::*;
use vstd::string::StrSliceExecFns;

verus! {

/// The mathematical value of an image: its dimensions and its pixel bytes.
pub struct ImageView {
    pub width: nat,
    pub height: nat,
    pub bytes: Seq<u8>,
}

/// The mathematical value of a clipboard content.
pub enum ContentView {
    Text(Seq<char>),
    Image(ImageView),
}

/// A raw RGBA image: four bytes for each pixel, row after row.
///
/// Every value of this type holds exactly `width * height * 4` bytes.
#[derive(Debug)]
pub struct RgbaImage {
    width: usize,
    height: usize,
    bytes: Vec<u8>,
}

impl View for RgbaImage {
    type V = ImageView;

    closed spec fn view(&self) -> ImageView {
        ImageView { width: self.width as nat, height: self.height as nat, bytes: self.bytes@ }
    }
}

impl RgbaImage {
    #[verifier::type_invariant]
    spec fn sized(self) -> bool {
        self.bytes@.len() == self.width * self.height * 4
    }

    /// An image of the given dimensions over `bytes`, if `bytes` holds four
    /// bytes for each pixel; `None` for a buffer of any other length.
    pub fn new(width: usize, height: usize, bytes: Vec<u8>) -> (r: Option<RgbaImage>)
        ensures
            r is Some <==> bytes@.len() == width * height * 4,
            r matches Some(img) ==> img@ == (ImageView {
                width: width as nat,
                height: height as nat,
                bytes: bytes@,
            }),
    {
        let len: usize = bytes.len();
        let pixels: usize = match width.checked_mul(height) {
            Some(p) => p,
            None => {
                assert(len != width * height * 4) by (nonlinear_arith)
                    requires
                        width * height > usize::MAX,
                        len <= usize::MAX,
                ;
                return None;
            },
        };
        let expected: usize = match pixels.checked_mul(4) {
            Some(e) => e,
            None => {
                return None;
            },
        };
        if len == expected {
            Some(RgbaImage { width, height, bytes })
        } else {
            None
        }
    }

    /// The width, in pixels.
    pub fn width(&self) -> (w: usize)
        ensures
            w == self@.width,
    {
        self.width
    }

    /// The height, in pixels.
    pub fn height(&self) -> (h: usize)
        ensures
            h == self@.height,
    {
        self.height
    }

    /// The pixel bytes; there are always `width * height * 4` of them.
    pub fn bytes(&self) -> (b: &Vec<u8>)
        ensures
            b@ == self@.bytes,
            b@.len() == self@.width * self@.height * 4,
    {
        proof {
            use_type_invariant(self);
        }
        &self.bytes
    }

    /// Whether two images hold the same pixel bytes. Dimensions are not
    /// compared: two images are the same content when their buffers are.
    pub fn same_pixels(&self, other: &RgbaImage) -> (r: bool)
        ensures
            r == (self@.bytes == other@.bytes),
    {
        bytes_equal(&self.bytes, &other.bytes)
    }

    /// An independent copy of this image.
    pub fn duplicate(&self) -> (r: RgbaImage)
        ensures
            r@ == self@,
    {
        proof {
            use_type_invariant(self);
        }
        let bytes: Vec<u8> = self.bytes.clone();
        assert(bytes@ =~= self.bytes@);
        RgbaImage { width: self.width, height: self.height, bytes }
    }
}

/// Whether two byte buffers hold the same bytes.
pub fn bytes_equal(a: &Vec<u8>, b: &Vec<u8>) -> (r: bool)
    ensures
        r == (a@ == b@),
{
    if a.len() != b.len() {
        return false;
    }
    let mut i: usize = 0;
    while i < a.len()
        invariant
            a@.len() == b@.len(),
            i <= a@.len(),
            forall|j: int| 0 <= j < i ==> a@[j] == b@[j],
        decreases a@.len() - i,
    {
        if a[i] != b[i] {
            return false;
        }
        i += 1;
    }
    assert(a@ =~= b@);
    true
}

/// One clipboard content: text, or a raw image.
#[derive(Debug)]
pub enum ClipboardContent {
    Text(String),
    Image(RgbaImage),
}

impl View for ClipboardContent {
    type V = ContentView;

    open spec fn view(&self) -> ContentView {
        match self {
            ClipboardContent::Text(t) => ContentView::Text(t@),
            ClipboardContent::Image(img) => ContentView::Image(img@),
        }
    }
}

/// The value of a content that may be absent.
pub open spec fn content_of(o: Option<ClipboardContent>) -> Option<ContentView> {
    match o {
        Some(c) => Some(c@),
        None => None,
    }
}

/// Whether two contents are the same clipboard content: two texts with the
/// same characters, or two images with the same pixel bytes. A text and an
/// image are never the same.
pub open spec fn same_content(a: ContentView, b: ContentView) -> bool {
    match (a, b) {
        (ContentView::Text(x), ContentView::Text(y)) => x == y,
        (ContentView::Image(x), ContentView::Image(y)) => x.bytes == y.bytes,
        _ => false,
    }
}

impl ClipboardContent {
    /// Whether `self` and `other` are the same clipboard content.
    pub fn same_as(&self, other: &ClipboardContent) -> (r: bool)
        ensures
            r == same_content(self@, other@),
    {
        match (self, other) {
            (ClipboardContent::Text(x), ClipboardContent::Text(y)) => *x == *y,
            (ClipboardContent::Image(x), ClipboardContent::Image(y)) => x.same_pixels(y),
            _ => false,
        }
    }

    /// An independent copy of this content.
    pub fn duplicate(&self) -> (r: ClipboardContent)
        ensures
            r@ == self@,
    {
        match self {
            ClipboardContent::Text(t) => ClipboardContent::Text(t.clone()),
            ClipboardContent::Image(img) => ClipboardContent::Image(img.duplicate()),
        }
    }

    /// What a sink of raw text receives for this content: the UTF-8 bytes of
    /// a text, with nothing before or after them, and nothing for an image.
    pub fn raw_text_bytes(&self) -> (r: Option<Vec<u8>>)
        ensures
            match self@ {
                ContentView::Text(t) => r matches Some(b) && b@ == vstd::utf8::encode_utf8(t),
                ContentView::Image(_) => r is None,
            },
    {
        match self {
            ClipboardContent::Text(t) => Some(t.as_str().as_bytes_vec()),
            ClipboardContent::Image(_) => None,
        }
    }

    /// The text of this content, if it is text.
    pub fn text(&self) -> (r: Option<&String>)
        ensures
            match self@ {
                ContentView::Text(t) => r matches Some(s) && s@ == t,
                ContentView::Image(_) => r is None,
            },
    {
        match self {
            ClipboardContent::Text(t) => Some(t),
            ClipboardContent::Image(_) => None,
        }
    }
}

/// `same_content` is an equivalence on contents.
pub proof fn lemma_same_content_equivalence(a: ContentView, b: ContentView, c: ContentView)
    ensures
        same_content(a, a),
        same_content(a, b) == same_content(b, a),
        same_content(a, b) && same_content(b, c) ==> same_content(a, c),
{
}

} // verus!
