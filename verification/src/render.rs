//! Rendering the newest text into a template.

use vstd::prelude::*;
use vstd::string::StringSliceAdditionalSpecFns;
use crate::model::latest_text;
use crate::store::HistoryStore;

verus! {

/// The token that stands for the content in a template.
pub const CONTENT_TOKEN: &'static str = "{{content}}";

/// `token` stands in `t` at the position `i`.
pub open spec fn occurs_at(t: Seq<u8>, token: Seq<u8>, i: int) -> bool {
    0 <= i && i + token.len() <= t.len() && t.subrange(i, i + token.len()) == token
}

/// `i` is the first position of `t` at which `token` stands.
pub open spec fn first_occurrence(t: Seq<u8>, token: Seq<u8>, i: int) -> bool {
    occurs_at(t, token, i) && forall|j: int| 0 <= j < i ==> !occurs_at(t, token, j)
}

/// The template `t` with the first `token` in it replaced by `text`; `t`
/// itself where `token` does not stand in it.
pub open spec fn rendered(t: Seq<u8>, token: Seq<u8>, text: Seq<u8>) -> Seq<u8> {
    if exists|i: int| first_occurrence(t, token, i) {
        let i = choose|i: int| first_occurrence(t, token, i);
        t.subrange(0, i) + text + t.subrange(i + token.len(), t.len() as int)
    } else {
        t
    }
}

/// Where `token` first stands at `i`, the rendered template is what stands
/// before `i`, then `text`, then what follows the token.
pub proof fn lemma_rendered_at(t: Seq<u8>, token: Seq<u8>, text: Seq<u8>, i: int)
    requires
        first_occurrence(t, token, i),
    ensures
        rendered(t, token, text) == t.subrange(0, i) + text + t.subrange(
            i + token.len(),
            t.len() as int,
        ),
{
    let c = choose|c: int| first_occurrence(t, token, c);
    assert(c == i) by {
        if c < i {
            assert(!occurs_at(t, token, c));
        }
        if i < c {
            assert(!occurs_at(t, token, i));
        }
    }
}

/// Where `token` stands nowhere in `t`, the rendered template is `t`.
pub proof fn lemma_rendered_without_token(t: Seq<u8>, token: Seq<u8>, text: Seq<u8>)
    requires
        forall|i: int| !occurs_at(t, token, i),
    ensures
        rendered(t, token, text) == t,
{
}

/// Whether `token` stands in `t` at `i`.
fn matches_at(t: &[u8], token: &[u8], i: usize) -> (r: bool)
    requires
        i + token@.len() <= t@.len(),
    ensures
        r == occurs_at(t@, token@, i as int),
{
    let n: usize = t.len();
    let m: usize = token.len();
    let mut k: usize = 0;
    while k < m
        invariant
            n == t@.len(),
            m == token@.len(),
            i + m <= n,
            k <= m,
            forall|j: int| 0 <= j < k ==> t@[i + j] == token@[j],
        decreases m - k,
    {
        if t[i + k] != token[k] {
            assert(t@.subrange(i as int, i + m)[k as int] != token@[k as int]);
            return false;
        }
        k += 1;
    }
    assert(t@.subrange(i as int, i + m) =~= token@);
    true
}

/// Appends the bytes of `src` from `from` up to `to` to `out`.
fn push_range(out: &mut Vec<u8>, src: &[u8], from: usize, to: usize)
    requires
        from <= to <= src@.len(),
    ensures
        final(out)@ == old(out)@ + src@.subrange(from as int, to as int),
{
    let ghost start = out@;
    let mut k: usize = from;
    while k < to
        invariant
            from <= k <= to <= src@.len(),
            out@ == start + src@.subrange(from as int, k as int),
        decreases to - k,
    {
        out.push(src[k]);
        k += 1;
        assert(out@ =~= start + src@.subrange(from as int, k as int));
    }
    assert(src@.subrange(from as int, from as int) =~= Seq::<u8>::empty());
}

/// The template with the first `token` in it replaced by `text`, byte for
/// byte and without any escaping; the template as it is where it holds no
/// `token`.
pub fn render(template: &[u8], token: &[u8], text: &[u8]) -> (out: Vec<u8>)
    ensures
        out@ == rendered(template@, token@, text@),
{
    let n: usize = template.len();
    let m: usize = token.len();
    let mut out: Vec<u8> = Vec::new();
    if m <= n {
        let last: usize = n - m;
        let mut i: usize = 0;
        loop
            invariant
                n == template@.len(),
                m == token@.len(),
                last == n - m,
                i <= last,
                out@ == Seq::<u8>::empty(),
                forall|j: int| 0 <= j < i ==> !occurs_at(template@, token@, j),
            ensures
                forall|j: int| 0 <= j <= last ==> !occurs_at(template@, token@, j),
            decreases last - i,
        {
            if matches_at(template, token, i) {
                push_range(&mut out, template, 0, i);
                push_range(&mut out, text, 0, text.len());
                push_range(&mut out, template, i + m, n);
                proof {
                    lemma_rendered_at(template@, token@, text@, i as int);
                    assert(text@.subrange(0, text@.len() as int) =~= text@);
                }
                return out;
            }
            if i == last {
                break;
            }
            i += 1;
        }
    }
    proof {
        lemma_rendered_without_token(template@, token@, text@);
    }
    push_range(&mut out, template, 0, n);
    assert(template@.subrange(0, n as int) =~= template@);
    out
}

/// The template with the first `token` in it replaced by `text`, as the
/// bytes of its UTF-8 form.
pub fn render_text(template: &str, token: &str, text: &str) -> (out: Vec<u8>)
    ensures
        out@ == rendered(template.spec_bytes(), token.spec_bytes(), text.spec_bytes()),
{
    render(template.as_bytes(), token.as_bytes(), text.as_bytes())
}

/// The template with the first `token` in it replaced by the text of the
/// newest clip of `store`; by the empty text where the store is empty or its
/// newest clip is an image.
pub fn render_latest(store: &HistoryStore, template: &str, token: &str) -> (out: Vec<u8>)
    ensures
        out@ == rendered(
            template.spec_bytes(),
            token.spec_bytes(),
            vstd::utf8::encode_utf8(latest_text(store@.clips)),
        ),
{
    let text: String = store.latest_text();
    render_text(template, token, text.as_str())
}

} // verus!
