//! Messages and their parts.

use vstd::prelude::*;
use vstd::string::*;

use crate::json::{json_text, json_views, lemma_json_views, Json, JsonView};
use crate::openai::{
    image_count, image_part, is_image_part, part_sources, part_text, part_texts, Content, Message,
};
use crate::text::{blank, contains, starts_with};

use super::text::{lemma_join_concat, lemma_join_holds};

verus! {

/// A part says `t`: it is that string, or an object whose `text` it is.
pub open spec fn part_says(part: JsonView, t: Seq<char>) -> bool {
    part == JsonView::Text(t) || (part is Object && part.get("text"@) == Some(JsonView::Text(t)))
}

/// A part without text.
pub open spec fn mute(part: JsonView) -> bool {
    !(part is Text) && !(part.get("text"@) matches Some(JsonView::Text(_)))
}

proof fn lemma_texts_concat(a: Seq<JsonView>, b: Seq<JsonView>)
    ensures
        part_texts(a + b) == part_texts(a) + part_texts(b),
    decreases b.len(),
{
    if b.len() == 0 {
        assert(a + b =~= a);
        assert(part_texts(a) + Seq::<Seq<char>>::empty() =~= part_texts(a));
    } else {
        lemma_texts_concat(a, b.drop_last());
        assert((a + b).drop_last() =~= a + b.drop_last());
        assert(part_texts(a + b) =~= part_texts(a) + part_texts(b));
    }
}

proof fn lemma_text_at(parts: Seq<JsonView>, k: int, t: Seq<char>) -> (j: int)
    requires
        0 <= k < parts.len(),
        part_text(parts[k]) == Some(t),
    ensures
        0 <= j < part_texts(parts).len(),
        part_texts(parts)[j] == t,
    decreases parts.len(),
{
    if k == parts.len() - 1 {
        part_texts(parts).len() - 1
    } else {
        lemma_text_at(parts.drop_last(), k, t)
    }
}

proof fn lemma_no_texts(parts: Seq<JsonView>)
    requires
        forall|k: int| 0 <= k < parts.len() ==> part_text(#[trigger] parts[k]) is None,
    ensures
        part_texts(parts).len() == 0,
    decreases parts.len(),
{
    if parts.len() > 0 {
        let front = parts.drop_last();
        assert forall|k: int| 0 <= k < front.len() implies part_text(#[trigger] front[k]) is None by {
            assert(front[k] == parts[k]);
        }
        lemma_no_texts(front);
        assert(part_text(parts[parts.len() - 1]) is None);
    }
}

/// The text of a message: a plain content is its text; without a content there is none;
/// and of parts every text is in it.
pub proof fn law_the_text_of_a_message(m: &Message, r: String, k: int, t: Seq<char>)
    requires
        call_ensures(Message::text, (m,), r),
    ensures
        m.content matches Some(Content::Text(s)) ==> r@ == s@,
        m.content is None ==> r@.len() == 0,
        m.content matches Some(Content::Parts(parts)) ==> {
            &&& 0 <= k < parts@.len() && part_says(parts@[k]@, t) ==> contains(r@, t)
            &&& parts@.len() == 1 && part_says(parts@[0]@, t) ==> r@ == t
            &&& (forall|j: int| 0 <= j < parts@.len() ==> mute((#[trigger] parts@[j])@))
                ==> r@.len() == 0
        },
{
    if let Some(Content::Parts(parts)) = m.content {
        let all = json_views(parts@);
        lemma_json_views(parts@);
        if 0 <= k < parts@.len() && part_says(parts@[k]@, t) {
            assert(all[k] == parts@[k]@);
            let j = lemma_text_at(all, k, t);
            lemma_join_holds(part_texts(all), "\n"@, j);
        }
        if parts@.len() == 1 && part_says(parts@[0]@, t) {
            assert(all[0] == parts@[0]@);
            assert(part_texts(all.drop_last()) == Seq::<Seq<char>>::empty());
            assert(part_texts(all) =~= seq![t]);
        }
        if forall|j: int| 0 <= j < parts@.len() ==> mute((#[trigger] parts@[j])@) {
            assert forall|j: int| 0 <= j < all.len() implies part_text(#[trigger] all[j]) is None by {
                assert(all[j] == parts@[j]@);
            }
            lemma_no_texts(all);
        }
    }
}

proof fn lemma_views_concat(a: Seq<Json>, b: Seq<Json>)
    ensures
        json_views(a + b) == json_views(a) + json_views(b),
{
    lemma_json_views(a);
    lemma_json_views(b);
    lemma_json_views(a + b);
    assert(json_views(a + b) =~= json_views(a) + json_views(b));
}

/// Parts of one message and parts of another, one behind the other, say what the two say,
/// a line feed between.
pub proof fn law_parts_add_up(
    a: &Message,
    b: &Message,
    both: &Message,
    ra: String,
    rb: String,
    r: String,
)
    requires
        call_ensures(Message::text, (a,), ra),
        call_ensures(Message::text, (b,), rb),
        call_ensures(Message::text, (both,), r),
        a.content is Some && a.content->0 is Parts,
        b.content is Some && b.content->0 is Parts,
        both.content is Some && both.content->0 is Parts,
        both.content->0->Parts_0@ == a.content->0->Parts_0@ + b.content->0->Parts_0@,
    ensures
        ra@.len() > 0 && rb@.len() > 0 ==> r@ == ra@ + "\n"@ + rb@,
{
    let x = json_views(a.content->0->Parts_0@);
    let y = json_views(b.content->0->Parts_0@);
    lemma_views_concat(a.content->0->Parts_0@, b.content->0->Parts_0@);
    lemma_texts_concat(x, y);
    if part_texts(x).len() > 0 && part_texts(y).len() > 0 {
        lemma_join_concat(part_texts(x), part_texts(y), "\n"@);
    }
}

/// What makes a part an image: its type, an `image_url`, or a media type of images.
pub proof fn law_what_is_an_image(part: &Json, r: bool)
    requires
        call_ensures(is_image_part, (part,), r),
    ensures
        ({
            let p = part@;
            let kind = p.get("type"@);
            let media = p.get("mediaType"@);
            let other = p.get("media_type"@);
            let image = "image/"@;
            r <==> p is Object && {
                ||| kind == Some(JsonView::Text("image_url"@))
                ||| kind == Some(JsonView::Text("input_image"@))
                ||| kind == Some(JsonView::Text("image"@))
                ||| p.get("image_url"@) is Some
                ||| (media matches Some(JsonView::Text(m)) && starts_with(m, image))
                ||| media is None && (other matches Some(JsonView::Text(m)) && starts_with(m, image))
            }
        }),
{
}

/// Images are counted part by part.
pub proof fn law_images_are_counted(
    a: &Message,
    b: &Message,
    both: &Message,
    ra: usize,
    rb: usize,
    r: usize,
)
    requires
        call_ensures(Message::image_parts, (a,), ra),
        call_ensures(Message::image_parts, (b,), rb),
        call_ensures(Message::image_parts, (both,), r),
        a.content is Some && a.content->0 is Parts,
        b.content is Some && b.content->0 is Parts,
        both.content is Some && both.content->0 is Parts,
        both.content->0->Parts_0@ == a.content->0->Parts_0@ + b.content->0->Parts_0@,
    ensures
        r == ra + rb,
        a.content->0->Parts_0@.len() == 1 ==> ra == (if image_part(a.content->0->Parts_0@[0]@) {
            1int
        } else {
            0
        }),
        a.content->0->Parts_0@.len() == 0 ==> ra == 0,
{
    let x = json_views(a.content->0->Parts_0@);
    let y = json_views(b.content->0->Parts_0@);
    lemma_views_concat(a.content->0->Parts_0@, b.content->0->Parts_0@);
    lemma_json_views(a.content->0->Parts_0@);
    lemma_images_concat(x, y);
    if x.len() == 1 {
        assert(image_count(x.drop_last()) == 0);
        assert(x.last() == a.content->0->Parts_0@[0]@);
    }
}

proof fn lemma_images_concat(a: Seq<JsonView>, b: Seq<JsonView>)
    ensures
        image_count(a + b) == image_count(a) + image_count(b),
    decreases b.len(),
{
    if b.len() == 0 {
        assert(a + b =~= a);
    } else {
        lemma_images_concat(a, b.drop_last());
        assert((a + b).drop_last() =~= a + b.drop_last());
    }
}

/// A content that is text holds no image.
pub proof fn law_text_holds_no_image(m: &Message, r: usize)
    requires
        call_ensures(Message::image_parts, (m,), r),
        !(m.content matches Some(Content::Parts(_))),
    ensures
        r == 0,
{
}

/// No result of a tool is lost: its text is handed on or, where it has none, each of its
/// parts as JSON.
pub proof fn law_no_result_is_lost(m: &Message, text: String, r: String, k: int)
    requires
        call_ensures(Message::text, (m,), text),
        call_ensures(Message::tool_result_text, (m,), r),
    ensures
        !blank(text@) ==> r@ == text@,
        blank(text@) ==> (m.content matches Some(Content::Parts(parts)) ==> (0 <= k < parts@.len()
            ==> contains(r@, json_text(parts@[k]@)))),
        blank(text@) && !(m.content matches Some(Content::Parts(_))) ==> r@.len() == 0,
{
    if let Some(Content::Parts(parts)) = m.content {
        lemma_json_views(parts@);
        let all = json_views(parts@);
        if 0 <= k < parts@.len() {
            assert(part_sources(all)[k] == json_text(parts@[k]@));
            lemma_join_holds(part_sources(all), "\n"@, k);
        }
    }
}

} // verus!
