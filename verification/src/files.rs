//! The names of the files that the service offers, and the types that they are
//! sent as.
use crate::patterns::texts_model;
use crate::text::{
    after_last, all_name_chars, join3, lower, only_name_chars, same, split, split_at_mark,
    starts_with, tail_after, to_lower,
};
use vstd::prelude::*;
use vstd::utf8::encode_utf8;

verus! {

/// The most bytes in the name of a file.
pub const MAX_FILE_NAME: usize = 160;

/// What follows the last full stop in the name, in small letters.
pub open spec fn ending(name: Seq<char>) -> Seq<char> {
    lower(after_last(name, '.'))
}

/// The endings of the images that are offered; small letters are expected.
pub open spec fn is_image_ending(ending: Seq<char>) -> bool {
    ||| ending == "jpg"@
    ||| ending == "jpeg"@
    ||| ending == "png"@
    ||| ending == "webp"@
    ||| ending == "gif"@
    ||| ending == "avif"@
}

/// Whether the ending is that of an image that is offered.
pub fn image_ending(ending: &str) -> (found: bool)
    ensures
        found == is_image_ending(ending@),
{
    same(ending, "jpg") || same(ending, "jpeg") || same(ending, "png") || same(ending, "webp")
        || same(ending, "gif") || same(ending, "avif")
}

/// The name is one of a file that may be offered: short, without a path, not
/// hidden, and with the ending of a video or an image.
pub open spec fn is_safe_file_name(name: Seq<char>) -> bool {
    &&& name.len() > 0
    &&& encode_utf8(name).len() <= MAX_FILE_NAME
    &&& all_name_chars(name)
    &&& name[0] != '.'
    &&& ending(name) == "mp4"@ || is_image_ending(ending(name))
}

/// Whether a file of this name may be offered.
pub fn safe_file_name(value: &str) -> (safe: bool)
    ensures
        safe == is_safe_file_name(value@),
{
    proof {
        reveal_strlit(".");
        if value@.len() > 0 {
            assert("."@.is_prefix_of(value@) <==> value@[0] == '.') by {
                if value@[0] == '.' {
                    assert(value@.subrange(0, 1) =~= "."@);
                } else {
                    assert(value@.subrange(0, 1)[0] != "."@[0]);
                }
            }
        }
    }
    let tail = tail_after(value, '.');
    let extension = to_lower(tail.as_str());
    !value.is_empty() && value.as_bytes().len() <= MAX_FILE_NAME && only_name_chars(value)
        && !starts_with(value, ".") && (same(extension.as_str(), "mp4") || image_ending(
        extension.as_str(),
    ))
}

/// The type that a file of this name is sent as.
pub open spec fn content_type_of(name: Seq<char>) -> Seq<char> {
    let ending = ending(name);
    if ending == "mp4"@ {
        "video/mp4"@
    } else if ending == "png"@ {
        "image/png"@
    } else if ending == "webp"@ {
        "image/webp"@
    } else if ending == "avif"@ {
        "image/avif"@
    } else if ending == "gif"@ {
        "image/gif"@
    } else if ending == "jpg"@ || ending == "jpeg"@ {
        "image/jpeg"@
    } else {
        "application/octet-stream"@
    }
}

/// The type that a file of this name is sent as.
pub fn download_content_type(file: &str) -> (content_type: &'static str)
    ensures
        content_type@ == content_type_of(file@),
{
    let tail = tail_after(file, '.');
    let small = to_lower(tail.as_str());
    let extension = small.as_str();
    if same(extension, "mp4") {
        "video/mp4"
    } else if same(extension, "png") {
        "image/png"
    } else if same(extension, "webp") {
        "image/webp"
    } else if same(extension, "avif") {
        "image/avif"
    } else if same(extension, "gif") {
        "image/gif"
    } else if same(extension, "jpg") || same(extension, "jpeg") {
        "image/jpeg"
    } else {
        "application/octet-stream"
    }
}

/// The header that has a browser save a file under its name.
pub fn content_disposition(file: &str) -> (header: String)
    ensures
        header@ == "attachment; filename=\""@ + file@ + "\""@,
{
    join3("attachment; filename=\"", file, "\"")
}

/// The type that a page's file with this ending is sent as.
pub open spec fn page_type_of(extension: Seq<char>) -> Seq<char> {
    if extension == "html"@ {
        "text/html; charset=utf-8"@
    } else if extension == "js"@ {
        "text/javascript; charset=utf-8"@
    } else if extension == "css"@ {
        "text/css; charset=utf-8"@
    } else if extension == "svg"@ {
        "image/svg+xml"@
    } else if extension == "png"@ {
        "image/png"@
    } else if extension == "jpg"@ || extension == "jpeg"@ {
        "image/jpeg"@
    } else if extension == "webp"@ {
        "image/webp"@
    } else if extension == "ico"@ {
        "image/x-icon"@
    } else if extension == "json"@ {
        "application/json; charset=utf-8"@
    } else {
        "application/octet-stream"@
    }
}

/// The type that a page's file with this ending is sent as.
pub fn page_content_type(extension: &str) -> (content_type: &'static str)
    ensures
        content_type@ == page_type_of(extension@),
{
    if same(extension, "html") {
        "text/html; charset=utf-8"
    } else if same(extension, "js") {
        "text/javascript; charset=utf-8"
    } else if same(extension, "css") {
        "text/css; charset=utf-8"
    } else if same(extension, "svg") {
        "image/svg+xml"
    } else if same(extension, "png") {
        "image/png"
    } else if same(extension, "jpg") || same(extension, "jpeg") {
        "image/jpeg"
    } else if same(extension, "webp") {
        "image/webp"
    } else if same(extension, "ico") {
        "image/x-icon"
    } else if same(extension, "json") {
        "application/json; charset=utf-8"
    } else {
        "application/octet-stream"
    }
}

/// How long a page's file may be kept: for good where its name changes with its
/// content.
pub fn cache_control(cache: bool) -> (header: &'static str)
    ensures
        header@ == (if cache {
            "public, max-age=31536000, immutable"@
        } else {
            "no-cache"@
        }),
{
    if cache {
        "public, max-age=31536000, immutable"
    } else {
        "no-cache"
    }
}

/// The part of a path names something in its directory, with letters, digits,
/// `-`, `_` and `.` alone.
pub open spec fn is_safe_part(part: Seq<char>) -> bool {
    &&& part.len() > 0
    &&& part != "."@
    &&& part != ".."@
    &&& all_name_chars(part)
}

/// The path of a page's file: every part of it is safe.
pub open spec fn is_safe_asset(path: Seq<char>) -> bool {
    forall|i: int|
        0 <= i < split_at_mark(path, '/').len() ==> is_safe_part(
            #[trigger] split_at_mark(path, '/')[i],
        )
}

/// Whether a page's file may be looked up at this path.
pub fn safe_asset(path: &str) -> (safe: bool)
    ensures
        safe == is_safe_asset(path@),
{
    let parts = split(path, '/');
    let mut at: usize = 0;
    assert(texts_model(parts@).len() == parts@.len());
    while at < parts.len()
        invariant
            at <= parts@.len(),
            texts_model(parts@) == split_at_mark(path@, '/'),
            texts_model(parts@).len() == parts@.len(),
            forall|i: int|
                0 <= i < at ==> is_safe_part(#[trigger] split_at_mark(path@, '/')[i]),
        decreases parts@.len() - at,
    {
        assert(texts_model(parts@)[at as int] == parts@[at as int]@);
        let part = parts[at].as_str();
        if part.is_empty() || same(part, ".") || same(part, "..") || !only_name_chars(part) {
            assert(!is_safe_part(split_at_mark(path@, '/')[at as int]));
            return false;
        }
        at = at + 1;
    }
    true
}

/// The pieces of a text hold its characters but the marks, and a mark at either
/// end of the text leaves an empty piece there.
proof fn lemma_split(text: Seq<char>, mark: char)
    ensures
        split_at_mark(text, mark).len() > 0,
        forall|i: int|
            0 <= i < text.len() && #[trigger] text[i] != mark ==> exists|j: int|
                0 <= j < split_at_mark(text, mark).len() && (#[trigger] split_at_mark(
                    text,
                    mark,
                )[j]).contains(text[i]),
        text.len() == 0 || text[0] == mark ==> split_at_mark(text, mark)[0].len() == 0,
        text.len() == 0 || text.last() == mark ==> split_at_mark(text, mark).last().len() == 0,
    decreases text.len(),
{
    if text.len() > 0 {
        let fewer = text.drop_last();
        lemma_split(fewer, mark);
        let before = split_at_mark(fewer, mark);
        let after = split_at_mark(text, mark);
        assert forall|i: int| 0 <= i < text.len() && #[trigger] text[i] != mark implies exists|
            j: int,
        |
            0 <= j < after.len() && (#[trigger] after[j]).contains(text[i]) by {
            if i < fewer.len() {
                assert(fewer[i] == text[i]);
                let j = choose|j: int|
                    0 <= j < before.len() && (#[trigger] before[j]).contains(fewer[i]);
                if text.last() != mark && j == before.len() - 1 {
                    let k = choose|k: int|
                        0 <= k < before.last().len() && before.last()[k] == fewer[i];
                    assert(after[j][k] == text[i]);
                }
                assert(after[j].contains(text[i]));
            } else {
                let j = after.len() - 1;
                assert(after[j][after[j].len() - 1] == text[i]);
                assert(after[j].contains(text[i]));
            }
        }
        if text[0] == mark {
            if fewer.len() > 0 {
                assert(fewer[0] == text[0]);
            }
            if text.len() == 1 {
                assert(after[0].len() == 0);
            } else if text.last() != mark && before.len() == 1 {
                lemma_split_mark(fewer, mark);
            }
        }
    }
}

/// A text that starts with a mark has more than one piece.
proof fn lemma_split_mark(text: Seq<char>, mark: char)
    requires
        text.len() > 0,
        text[0] == mark,
    ensures
        split_at_mark(text, mark).len() > 1,
    decreases text.len(),
{
    if text.len() > 1 {
        assert(text.drop_last()[0] == mark);
        lemma_split_mark(text.drop_last(), mark);
    } else {
        assert(split_at_mark(text.drop_last(), mark).len() == 1);
    }
}

/// A page's file is looked up below its directory: the path is not absolute,
/// does not end in a slash, names no step up or to the same place, and is made
/// of letters, digits, `-`, `_`, `.` and slashes.
pub proof fn assets_stay_in_their_directory(path: Seq<char>)
    requires
        is_safe_asset(path),
    ensures
        path.len() > 0,
        path[0] != '/',
        path.last() != '/',
        forall|i: int|
            0 <= i < path.len() ==> crate::text::is_name_char(#[trigger] path[i]) || path[i] == '/',
        forall|i: int|
            0 <= i < split_at_mark(path, '/').len() ==> #[trigger] split_at_mark(path, '/')[i]
                != ".."@ && split_at_mark(path, '/')[i] != "."@,
{
    lemma_split(path, '/');
    let parts = split_at_mark(path, '/');
    assert(is_safe_part(parts[0]));
    assert(is_safe_part(parts[parts.len() - 1]));
    assert forall|i: int| 0 <= i < path.len() implies crate::text::is_name_char(#[trigger] path[i])
        || path[i] == '/' by {
        if path[i] != '/' {
            let j = choose|j: int|
                0 <= j < parts.len() && (#[trigger] parts[j]).contains(path[i]);
            assert(is_safe_part(parts[j]));
        }
    }
}

} // verus!
