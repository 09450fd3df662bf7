//! Pango markup for the labels of video widgets and messages.

use vstd::prelude::*;
use vstd::string::*;

use crate::text::{encode_minimal, escape_char, escape_minimal};

verus! {

/// Text escaped for use inside markup (`htmlescape::encode_minimal`).
pub fn escape_markup(s: &str) -> (res: String)
    ensures
        res@ == escape_minimal(s@),
{
    encode_minimal(s)
}

/// The title of a video in a list: semibold, 11 points, escaped.
pub fn list_title_markup(title: &str) -> (res: String)
    ensures
        res@ == "<span weight=\"semibold\" font=\"11\">"@ + escape_minimal(title@) + "</span>"@,
{
    let mut out = "<span weight=\"semibold\" font=\"11\">".to_owned();
    let escaped = encode_minimal(title);
    out.append(escaped.as_str());
    out.append("</span>");
    out
}

/// The title of the video being watched: bold, escaped.
pub fn bold_title_markup(title: &str) -> (res: String)
    ensures
        res@ == "<span weight=\"bold\">"@ + escape_minimal(title@) + "</span>"@,
{
    let mut out = "<span weight=\"bold\">".to_owned();
    let escaped = encode_minimal(title);
    out.append(escaped.as_str());
    out.append("</span>");
    out
}

/// The author and view count of a related video: the escaped author, a
/// middle dot, and the formatted count.
pub fn author_and_views_markup(author: &str, views: &str) -> (res: String)
    ensures
        res@ == escape_minimal(author@) + " \u{b7} "@ + views@ + " views"@,
{
    let mut out = encode_minimal(author);
    out.append(" \u{b7} ");
    out.append(views);
    out.append(" views");
    out
}

/// The view count under the video being watched.
pub fn views_markup(views: &str) -> (res: String)
    ensures
        res@ == views@ + " views"@,
{
    let mut out = String::from_str(views);
    out.append(" views");
    out
}

/// The like count: a thumbs-up and the formatted count.
pub fn likes_markup(likes: &str) -> (res: String)
    ensures
        res@ == "\u{1f44d} "@ + likes@,
{
    let mut out = "\u{1f44d} ".to_owned();
    out.append(likes);
    out
}

/// The dislike count: a thumbs-down and the formatted count.
pub fn dislikes_markup(dislikes: &str) -> (res: String)
    ensures
        res@ == "\u{1f44e} "@ + dislikes@,
{
    let mut out = "\u{1f44e} ".to_owned();
    out.append(dislikes);
    out
}

/// An error message in large type.
pub fn error_markup(message: &str) -> (res: String)
    ensures
        res@ == "<span size=\"x-large\">"@ + message@ + "</span>"@,
{
    let mut out = "<span size=\"x-large\">".to_owned();
    out.append(message);
    out.append("</span>");
    out
}

/// The message shown in place of the trending list when it could not be
/// fetched.
pub fn fetch_failed_markup() -> (res: String)
    ensures
        res@ == "<span size=\"x-large\">Couldn't fetch data.\nAre you connected to the internet?</span>"@,
{
    "<span size=\"x-large\">Couldn't fetch data.\nAre you connected to the internet?</span>".to_owned()
}

/// The message shown in place of a video whose page could not be read.
pub fn video_failed_message() -> (res: &'static str)
    ensures
        res@ == "Could not fetch video."@,
{
    "Could not fetch video."
}

/// A markup-significant character: one that could open or close a tag or
/// an attribute value.
pub open spec fn is_markup_char(c: char) -> bool {
    c == '<' || c == '>' || c == '"' || c == '\''
}

/// Escaped text holds no character that could open or close a tag or an
/// attribute value, whatever text went in: titles and authors scraped from
/// a page cannot add markup of their own.
pub proof fn law_escaped_text_has_no_markup(s: Seq<char>)
    ensures
        forall|i: int| 0 <= i < escape_minimal(s).len() ==> !is_markup_char(#[trigger] escape_minimal(s)[i]),
    decreases s.len(),
{
    if s.len() > 0 {
        law_escaped_text_has_no_markup(s.drop_last());
        let prev = escape_minimal(s.drop_last());
        let tail = escape_char(s.last());
        assert(escape_minimal(s) == prev + tail);
        assert forall|i: int| 0 <= i < tail.len() implies !is_markup_char(#[trigger] tail[i]) by {}
        assert forall|i: int| 0 <= i < escape_minimal(s).len() implies !is_markup_char(#[trigger] escape_minimal(s)[i]) by {
            if i < prev.len() {
                assert(escape_minimal(s)[i] == prev[i]);
            } else {
                assert(escape_minimal(s)[i] == tail[i - prev.len()]);
            }
        }
    }
}

/// Text without markup-significant characters or ampersands passes through
/// escaping unchanged.
pub proof fn law_escape_keeps_plain_text(s: Seq<char>)
    requires
        forall|i: int| 0 <= i < s.len() ==> !is_markup_char(#[trigger] s[i]) && s[i] != '&',
    ensures
        escape_minimal(s) == s,
    decreases s.len(),
{
    if s.len() > 0 {
        law_escape_keeps_plain_text(s.drop_last());
        assert(s.drop_last().push(s.last()) =~= s);
    }
}

} // verus!
