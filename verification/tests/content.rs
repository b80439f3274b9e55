use sloth::clip::Clip;
use sloth::content::{bytes_equal, ClipboardContent, RgbaImage};
use sloth::diff::{changed, clip_to_add, select_content};

fn text(s: &str) -> ClipboardContent {
    ClipboardContent::Text(s.to_string())
}

fn image(width: usize, height: usize, bytes: Vec<u8>) -> RgbaImage {
    RgbaImage::new(width, height, bytes).unwrap()
}

#[test]
fn an_image_holds_four_bytes_for_each_pixel() {
    let img = image(2, 3, (0..24).collect());
    assert_eq!(img.width(), 2);
    assert_eq!(img.height(), 3);
    assert_eq!(img.bytes().len(), 24);
    assert_eq!(img.bytes()[23], 23);
    assert!(RgbaImage::new(0, 5, Vec::new()).is_some());
}

#[test]
fn a_buffer_of_the_wrong_length_is_no_image() {
    assert!(RgbaImage::new(2, 3, vec![0; 23]).is_none());
    assert!(RgbaImage::new(2, 3, vec![0; 25]).is_none());
    assert!(RgbaImage::new(1, 1, Vec::new()).is_none());
    assert!(RgbaImage::new(0, 0, vec![0; 4]).is_none());
}

#[test]
fn dimensions_that_overflow_are_no_image() {
    assert!(RgbaImage::new(usize::MAX, 2, Vec::new()).is_none());
    assert!(RgbaImage::new(usize::MAX / 2, 1, vec![0; 4]).is_none());
    assert!(RgbaImage::new(usize::MAX, usize::MAX, vec![0; 4]).is_none());
}

#[test]
fn bytes_are_compared_one_by_one() {
    assert!(bytes_equal(&vec![], &vec![]));
    assert!(bytes_equal(&vec![1, 2, 3], &vec![1, 2, 3]));
    assert!(!bytes_equal(&vec![1, 2, 3], &vec![1, 2, 4]));
    assert!(!bytes_equal(&vec![1, 2, 3], &vec![1, 2]));
    assert!(!bytes_equal(&vec![], &vec![0]));
}

#[test]
fn texts_are_the_same_when_their_characters_are() {
    assert!(text("abc").same_as(&text("abc")));
    assert!(!text("abc").same_as(&text("abd")));
    assert!(!text("abc").same_as(&text("ABC")));
    assert!(text("").same_as(&text("")));
}

#[test]
fn images_are_the_same_when_their_pixel_bytes_are() {
    let a = ClipboardContent::Image(image(1, 2, vec![1, 2, 3, 4, 5, 6, 7, 8]));
    let b = ClipboardContent::Image(image(1, 2, vec![1, 2, 3, 4, 5, 6, 7, 8]));
    let c = ClipboardContent::Image(image(1, 2, vec![1, 2, 3, 4, 5, 6, 7, 9]));
    let d = ClipboardContent::Image(image(2, 1, vec![1, 2, 3, 4, 5, 6, 7, 8]));
    assert!(a.same_as(&b));
    assert!(!a.same_as(&c));
    assert!(a.same_as(&d));
}

#[test]
fn a_text_and_an_image_are_never_the_same() {
    let empty_image = ClipboardContent::Image(image(0, 0, Vec::new()));
    assert!(!text("").same_as(&empty_image));
    assert!(!empty_image.same_as(&text("")));
}

#[test]
fn a_duplicate_is_equal_and_independent() {
    let source = ClipboardContent::Image(image(1, 1, vec![1, 2, 3, 4]));
    let copy = source.duplicate();
    assert!(copy.same_as(&source));
    match copy {
        ClipboardContent::Image(img) => {
            assert_eq!(img.width(), 1);
            assert_eq!(img.height(), 1);
            assert_eq!(img.bytes(), &vec![1, 2, 3, 4]);
        }
        ClipboardContent::Text(_) => panic!("the copy of an image is an image"),
    }
    let t = text("copy me");
    assert_eq!(t.duplicate().text(), Some(&"copy me".to_string()));
    assert_eq!(source.text(), None);
}

#[test]
fn the_default_clip_is_the_empty_placeholder() {
    let clip = Clip::default();
    assert_eq!(clip.id, 0);
    assert!(clip.content.is_none());
    assert!(!clip.is_code);
    assert!(!clip.pinned);
    let copy = clip.duplicate();
    assert_eq!(copy.id, 0);
    assert!(copy.content.is_none());
}

#[test]
fn a_clip_duplicate_keeps_every_field() {
    let clip = Clip { id: 7, content: Some(text("x")), is_code: true, pinned: true };
    let copy = clip.duplicate();
    assert_eq!(copy.id, 7);
    assert!(copy.is_code && copy.pinned);
    assert!(copy.content.unwrap().same_as(&text("x")));
}

#[test]
fn anything_differs_from_nothing() {
    assert!(changed(&None, &text("")));
    assert!(changed(&None, &text("x")));
    assert!(changed(&None, &ClipboardContent::Image(image(0, 0, Vec::new()))));
}

#[test]
fn changed_compares_with_the_previous_content() {
    assert!(!changed(&Some(text("x")), &text("x")));
    assert!(changed(&Some(text("x")), &text("y")));
    let img = |b: u8| ClipboardContent::Image(image(1, 1, vec![b; 4]));
    assert!(!changed(&Some(img(1)), &img(1)));
    assert!(changed(&Some(img(1)), &img(2)));
    assert!(changed(&Some(text("x")), &img(1)));
    assert!(changed(&Some(img(1)), &text("x")));
}

#[test]
fn select_content_prefers_the_text() {
    let img = image(1, 1, vec![5; 4]);
    let both = select_content(Some("t".to_string()), Some(img.duplicate()));
    assert!(both.unwrap().same_as(&text("t")));
    let only_text = select_content(Some("t".to_string()), None);
    assert!(only_text.unwrap().same_as(&text("t")));
    let only_image = select_content(None, Some(img.duplicate()));
    assert!(only_image.unwrap().same_as(&ClipboardContent::Image(img)));
    assert!(select_content(None, None).is_none());
}

#[test]
fn clip_to_add_is_the_current_content_where_it_is_new() {
    assert!(clip_to_add(&Some(text("a")), Some(text("b"))).unwrap().same_as(&text("b")));
    assert!(clip_to_add(&Some(text("a")), Some(text("a"))).is_none());
    assert!(clip_to_add(&Some(text("a")), None).is_none());
    assert!(clip_to_add(&None, Some(text("a"))).unwrap().same_as(&text("a")));
    assert!(clip_to_add(&None, None).is_none());
    let img = ClipboardContent::Image(image(1, 1, vec![0; 4]));
    assert!(clip_to_add(&Some(text("")), Some(img.duplicate())).unwrap().same_as(&img));
}

#[test]
fn a_sink_receives_the_raw_bytes_of_a_text() {
    assert_eq!(text("héllo").raw_text_bytes(), Some("héllo".as_bytes().to_vec()));
    assert_eq!(text("").raw_text_bytes(), Some(Vec::new()));
    let img = ClipboardContent::Image(image(1, 1, vec![0; 4]));
    assert_eq!(img.raw_text_bytes(), None);
}
