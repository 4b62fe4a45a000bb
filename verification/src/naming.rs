//! The texts that tasks are known by, and the names of the files that they save.
use crate::files::{ending, image_ending, is_image_ending, is_safe_file_name, MAX_FILE_NAME};
use crate::text::{
    after_last, all_name_chars, chars_of, decimal, decimal_of, digit_char, is_alphanumeric,
    is_ascii_alphanumeric, is_digit, is_name_char, join2, join3, lower, owned, string_of,
    tail_after,
};
use crate::weburl::{UrlModel, WebUrl};
use vstd::prelude::*;
use vstd::utf8::{encode_utf8, is_ascii_chars, is_ascii_chars_encode_utf8};

verus! {

/// The hexadecimal digit of a number below sixteen, with small letters.
pub open spec fn hex_char(digit: nat) -> char {
    if digit < 10 {
        digit_char(digit)
    } else {
        (('a' as u32 + digit - 10) as u32) as char
    }
}

/// The last `digits` hexadecimal digits of a number.
pub open spec fn hex_text(number: nat, digits: nat) -> Seq<char>
    decreases digits,
{
    if digits == 0 {
        Seq::empty()
    } else {
        hex_text(number / 16, (digits - 1) as nat).push(hex_char(number % 16))
    }
}

/// A task's identifier as 32 hexadecimal digits.
pub open spec fn simple_id(id: u128) -> Seq<char> {
    hex_text(id as nat, 32)
}

/// A task's identifier with hyphens between its groups of digits.
pub open spec fn hyphenated_id(id: u128) -> Seq<char> {
    let digits = simple_id(id);
    digits.subrange(0, 8) + "-"@ + digits.subrange(8, 12) + "-"@ + digits.subrange(12, 16) + "-"@
        + digits.subrange(16, 20) + "-"@ + digits.subrange(20, 32)
}

/// `uuid::Uuid::from_u128` and `Display` of its `simple` form: the 32
/// hexadecimal digits of the number.
#[verifier::external_body]
pub(crate) fn simple_text(id: u128) -> (text: String)
    ensures
        text@ == simple_id(id),
{
    uuid::Uuid::from_u128(id).simple().to_string()
}

/// `uuid::Uuid::from_u128` and its `Display`: the 32 hexadecimal digits of the
/// number, with hyphens after the eighth, the twelfth, the sixteenth and the
/// twentieth.
#[verifier::external_body]
pub(crate) fn hyphenated_text(id: u128) -> (text: String)
    ensures
        text@ == hyphenated_id(id),
{
    uuid::Uuid::from_u128(id).to_string()
}

proof fn lemma_hex_text(number: nat, digits: nat)
    ensures
        hex_text(number, digits).len() == digits,
        forall|i: int|
            0 <= i < digits ==> is_alphanumeric(#[trigger] hex_text(number, digits)[i]),
    decreases digits,
{
    if digits > 0 {
        lemma_hex_text(number / 16, (digits - 1) as nat);
        assert(is_alphanumeric(hex_char(number % 16)));
    }
}

/// The first eight digits of a task's identifier.
pub open spec fn short_id(id: u128) -> Seq<char> {
    simple_id(id).take(8)
}

fn short_text(id: u128) -> (text: String)
    ensures
        text@ == short_id(id),
{
    let digits = simple_text(id);
    let chars = chars_of(digits.as_str());
    proof {
        lemma_hex_text(id as nat, 32);
        assert(chars@.subrange(0, 8) =~= short_id(id));
    }
    string_of(&chars, 0, 8)
}

/// Where the state of a task is found.
pub fn status_url(id: u128) -> (url: String)
    ensures
        url@ == "/api/v1/tasks/"@ + hyphenated_id(id),
{
    let text = hyphenated_text(id);
    join2("/api/v1/tasks/", text.as_str())
}

/// The video's number, or the task's identifier where it is not known.
pub fn task_video_id(video_id: &Option<String>, id: u128) -> (text: String)
    ensures
        text@ == (match *video_id {
            Some(video_id) => video_id@,
            None => simple_id(id),
        }),
{
    match video_id {
        Some(video_id) => video_id.clone(),
        None => simple_text(id),
    }
}

/// The letters and digits of a text.
pub open spec fn safe_id(text: Seq<char>) -> Seq<char> {
    text.filter(|character: char| is_alphanumeric(character))
}

/// The letters and digits of a video's number.
pub fn safe_video_id(video_id: &str) -> (safe: String)
    ensures
        safe@ == safe_id(video_id@),
{
    let chars = chars_of(video_id);
    let ghost keep = |character: char| is_alphanumeric(character);
    let mut safe = String::new();
    let mut at: usize = 0;
    proof {
        reveal(Seq::filter);
        assert(chars@.take(0).filter(keep) =~= Seq::empty());
    }
    while at < chars.len()
        invariant
            at <= chars@.len(),
            keep == (|character: char| is_alphanumeric(character)),
            safe@ == chars@.take(at as int).filter(keep),
        decreases chars@.len() - at,
    {
        proof {
            reveal(Seq::filter);
            assert(chars@.take(at + 1).drop_last() =~= chars@.take(at as int));
        }
        if is_ascii_alphanumeric(chars[at]) {
            safe.push(chars[at]);
        }
        at = at + 1;
    }
    assert(chars@.take(at as int) =~= video_id@);
    safe
}

/// The name that a video is saved under.
pub open spec fn video_name(safe: Seq<char>, id: u128) -> Seq<char> {
    "qsy-"@ + (if safe.len() == 0 {
        "media"@
    } else {
        safe
    }) + "-"@ + short_id(id) + ".mp4"@
}

/// The name that a video is saved under.
pub fn video_file_name(safe: &str, id: u128) -> (name: String)
    ensures
        name@ == video_name(safe@, id),
{
    let short = short_text(id);
    let middle = if safe.is_empty() {
        "media"
    } else {
        safe
    };
    let head = join3("qsy-", middle, "-");
    join3(head.as_str(), short.as_str(), ".mp4")
}

/// The ending that an image is saved with: the one in its URL, if it is that of
/// an image.
pub open spec fn image_extension(url: UrlModel) -> Seq<char> {
    let found = after_last(after_last(url.path, '/'), '.');
    if is_image_ending(found) {
        found
    } else {
        "jpg"@
    }
}

/// The ending that an image is saved with.
pub fn extension_for_image(url: &WebUrl) -> (extension: String)
    ensures
        extension@ == image_extension(url@),
{
    let name = tail_after(url.path(), '/');
    let found = tail_after(name.as_str(), '.');
    if image_ending(found.as_str()) {
        found
    } else {
        owned("jpg")
    }
}

/// The name that an image is saved under.
pub open spec fn image_name(safe: Seq<char>, id: u128, index: nat, extension: Seq<char>) -> Seq<
    char,
> {
    "qsy-"@ + safe + "-"@ + short_id(id) + "-"@ + decimal(index + 1) + "."@ + extension
}

/// The name that an image is saved under.
pub fn image_file_name(safe: &str, id: u128, index: usize, extension: &str) -> (name: String)
    requires
        index < usize::MAX,
    ensures
        name@ == image_name(safe@, id, index as nat, extension@),
{
    let short = short_text(id);
    let place: u64 = index as u64 + 1;
    let digits = decimal_of(place);
    let head = join3("qsy-", safe, "-");
    let head = join3(head.as_str(), short.as_str(), "-");
    let head = join3(head.as_str(), digits.as_str(), ".");
    join2(head.as_str(), extension)
}

/// The name of a file while it is saved.
pub open spec fn part_name(name: Seq<char>, id: u128) -> Seq<char> {
    name + "."@ + simple_id(id) + ".part"@
}

/// The name of a file while it is saved.
pub fn part_file_name(name: &str, id: u128) -> (part: String)
    ensures
        part@ == part_name(name@, id),
{
    let digits = simple_text(id);
    let head = join2(name, ".");
    join3(head.as_str(), digits.as_str(), ".part")
}

proof fn lemma_safe_id(text: Seq<char>)
    ensures
        forall|i: int| 0 <= i < safe_id(text).len() ==> is_alphanumeric(#[trigger] safe_id(text)[i]),
        safe_id(text).len() <= text.len(),
    decreases text.len(),
{
    reveal(Seq::filter);
    if text.len() > 0 {
        lemma_safe_id(text.drop_last());
    }
}

proof fn lemma_decimal_is_digits(number: nat)
    ensures
        decimal(number).len() > 0,
        forall|i: int| 0 <= i < decimal(number).len() ==> is_digit(#[trigger] decimal(number)[i]),
    decreases number,
{
    if number >= 10 {
        lemma_decimal_is_digits(number / 10);
    }
}

/// What follows a full stop, where no other follows, is what follows the last.
proof fn lemma_after_last(head: Seq<char>, tail: Seq<char>)
    requires
        forall|i: int| 0 <= i < tail.len() ==> tail[i] != '.',
    ensures
        after_last(head.push('.') + tail, '.') == tail,
    decreases tail.len(),
{
    let whole = head.push('.') + tail;
    if tail.len() > 0 {
        lemma_after_last(head, tail.drop_last());
        assert(whole.drop_last() =~= head.push('.') + tail.drop_last());
        assert(whole.last() == tail.last());
        assert(tail.drop_last().push(tail.last()) =~= tail);
    } else {
        assert(whole.last() == '.');
    }
}

/// A name made of name characters is as long in bytes as in characters.
proof fn lemma_name_bytes(name: Seq<char>)
    requires
        all_name_chars(name),
    ensures
        encode_utf8(name).len() == name.len(),
{
    assert(is_ascii_chars(name)) by {
        assert forall|i: int| 0 <= i < name.len() implies '\0' <= #[trigger] name[i] <= '\u{7f}' by {
            assert(is_name_char(name[i]));
        }
    }
    is_ascii_chars_encode_utf8(name);
}

/// A file of a task is saved under a name that the service offers it by, unless
/// the letters and digits of the video's number are so many that the name exceeds
/// the limit.
pub proof fn saved_files_are_offered(
    video_id: Seq<char>,
    id: u128,
    index: nat,
    extension: Seq<char>,
)
    requires
        is_image_ending(extension),
    ensures
        safe_id(video_id).len() <= 143 ==> is_safe_file_name(video_name(safe_id(video_id), id)),
        image_name(safe_id(video_id), id, index, extension).len() <= MAX_FILE_NAME
            ==> is_safe_file_name(image_name(safe_id(video_id), id, index, extension)),
        crate::files::content_type_of(video_name(safe_id(video_id), id)) == "video/mp4"@,
{
    let safe = safe_id(video_id);
    lemma_safe_id(video_id);
    lemma_hex_text(id as nat, 32);
    lemma_decimal_is_digits(index + 1);
    reveal_strlit("qsy-");
    reveal_strlit("media");
    reveal_strlit("-");
    reveal_strlit(".");
    reveal_strlit(".mp4");
    reveal_strlit("mp4");
    reveal_strlit("jpg");
    reveal_strlit("jpeg");
    reveal_strlit("png");
    reveal_strlit("webp");
    reveal_strlit("gif");
    reveal_strlit("avif");

    let middle = if safe.len() == 0 {
        "media"@
    } else {
        safe
    };
    let video = video_name(safe, id);
    let video_head = "qsy-"@ + middle + "-"@ + short_id(id);
    assert(video =~= video_head.push('.') + "mp4"@);
    assert(all_name_chars(video)) by {
        lemma_all_names(video_head, video, "mp4"@);
    }
    lemma_after_last(video_head, "mp4"@);
    assert(lower("mp4"@) =~= "mp4"@);
    lemma_name_bytes(video);
    assert(video[0] == 'q');

    let image = image_name(safe, id, index, extension);
    let image_head = "qsy-"@ + safe + "-"@ + short_id(id) + "-"@ + decimal(index + 1);
    assert(image =~= image_head.push('.') + extension);
    assert(all_name_chars(image)) by {
        lemma_all_names(image_head, image, extension);
    }
    lemma_after_last(image_head, extension);
    assert(lower(extension) =~= extension);
    lemma_name_bytes(image);
    assert(image[0] == 'q');
}

/// A head and an ending of name characters make a name of them.
proof fn lemma_all_names(head: Seq<char>, name: Seq<char>, ending: Seq<char>)
    requires
        all_name_chars(head),
        all_name_chars(ending),
        name == head.push('.') + ending,
    ensures
        all_name_chars(name),
{
    assert forall|i: int| 0 <= i < name.len() implies is_name_char(#[trigger] name[i]) by {
        if i < head.len() {
            assert(name[i] == head[i]);
        } else if i > head.len() {
            assert(name[i] == ending[i - head.len() - 1]);
        }
    }
}

} // verus!
