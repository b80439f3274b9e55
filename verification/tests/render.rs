use sloth::content::{ClipboardContent, RgbaImage};
use sloth::render::{render, render_latest, render_text, CONTENT_TOKEN};
use sloth::store::HistoryStore;

#[test]
fn the_token_is_replaced_by_the_text() {
    assert_eq!(CONTENT_TOKEN, "{{content}}");
    assert_eq!(render_text("<p>{{content}}</p>", CONTENT_TOKEN, "d"), b"<p>d</p>".to_vec());
    assert_eq!(render(b"<p>{{content}}</p>", b"{{content}}", b"d"), b"<p>d</p>".to_vec());
}

#[test]
fn the_text_is_not_escaped() {
    assert_eq!(
        render_text("<p>{{content}}</p>", CONTENT_TOKEN, "<b>&amp;</b>"),
        b"<p><b>&amp;</b></p>".to_vec()
    );
    assert_eq!(
        render_text("[{{content}}]", CONTENT_TOKEN, "{{content}}"),
        b"[{{content}}]".to_vec()
    );
}

#[test]
fn a_template_without_the_token_is_unchanged() {
    assert_eq!(render_text("<p>static</p>", CONTENT_TOKEN, "d"), b"<p>static</p>".to_vec());
    assert_eq!(render_text("{{content}", CONTENT_TOKEN, "d"), b"{{content}".to_vec());
    assert_eq!(render_text("", CONTENT_TOKEN, "d"), Vec::<u8>::new());
    assert_eq!(render_text("{{c}}", CONTENT_TOKEN, "d"), b"{{c}}".to_vec());
}

#[test]
fn the_token_at_either_end() {
    assert_eq!(render_text("{{content}}", CONTENT_TOKEN, "all"), b"all".to_vec());
    assert_eq!(render_text("{{content}}!", CONTENT_TOKEN, ""), b"!".to_vec());
    assert_eq!(render_text("a{{content}}", CONTENT_TOKEN, "b"), b"ab".to_vec());
}

#[test]
fn only_the_first_token_is_replaced() {
    assert_eq!(
        render_text("{{content}} and {{content}}", CONTENT_TOKEN, "x"),
        b"x and {{content}}".to_vec()
    );
    assert_eq!(render(b"aaa", b"aa", b"b"), b"ba".to_vec());
}

#[test]
fn an_empty_token_stands_at_the_start() {
    assert_eq!(render(b"abc", b"", b"x"), b"xabc".to_vec());
    assert_eq!(render(b"", b"", b"x"), b"x".to_vec());
}

#[test]
fn text_beyond_ascii_is_rendered_as_utf8() {
    assert_eq!(
        render_text("«{{content}}»", CONTENT_TOKEN, "žluťoučký 🦥"),
        "«žluťoučký 🦥»".as_bytes().to_vec()
    );
}

#[test]
fn render_latest_uses_the_newest_text() {
    let mut store = HistoryStore::new(3);
    assert_eq!(render_latest(&store, "<p>{{content}}</p>", CONTENT_TOKEN), b"<p></p>".to_vec());
    for s in ["a", "b", "c", "d"] {
        store.append(ClipboardContent::Text(s.to_string()));
    }
    assert_eq!(render_latest(&store, "<p>{{content}}</p>", CONTENT_TOKEN), b"<p>d</p>".to_vec());
    store.append(ClipboardContent::Image(RgbaImage::new(1, 1, vec![0; 4]).unwrap()));
    assert_eq!(render_latest(&store, "<p>{{content}}</p>", CONTENT_TOKEN), b"<p></p>".to_vec());
}
