//! Which addresses are accepted, and what they address: share documents, play
//! endpoints, media files and images.
use crate::decode::{
    backslashes_decoded, decode_backslash_escapes, decode_html_entities, entities_decoded,
    percent_decode, percent_decoded,
};
use crate::errors::{agrees, bad_request, upstream, ErrorModel, ResolveError};
use crate::text::{
    all_digits, chars_of, contains, ends_with, holds_text, is_ascii_digit, is_digit, is_space,
    is_white_space, join2, join3, lower, occurs, occurs_at, owned, same, starts_with, string_of,
    to_lower, trim, trim_end_by, trimmed,
};
use crate::weburl::{
    first_value, is_plain, is_plain_host, is_plain_path, optional_text, optional_url, plain_url,
    query_with, url_joined, url_parsed, UrlModel, WebUrl,
};
use vstd::prelude::*;
use vstd::utf8::encode_utf8;

verus! {

/// The most bytes that a share text may have.
pub const MAX_INPUT_BYTES: usize = 16384;

/// The hosts that share documents are read from.
pub open spec fn is_document_host(host: Seq<char>) -> bool {
    ||| host == "douyin.com"@
    ||| host == "www.douyin.com"@
    ||| host == "m.douyin.com"@
    ||| host == "v.douyin.com"@
    ||| host == "iesdouyin.com"@
    ||| host == "www.iesdouyin.com"@
}

fn document_host(host: &str) -> (found: bool)
    ensures
        found == is_document_host(host@),
{
    same(host, "douyin.com") || same(host, "www.douyin.com") || same(host, "m.douyin.com")
        || same(host, "v.douyin.com") || same(host, "iesdouyin.com") || same(
        host,
        "www.iesdouyin.com",
    )
}

/// The hosts of the play endpoints.
pub open spec fn is_play_host(host: Seq<char>) -> bool {
    host == "aweme.snssdk.com"@ || host == "aweme-hl.snssdk.com"@
}

fn play_host(host: &str) -> (found: bool)
    ensures
        found == is_play_host(host@),
{
    same(host, "aweme.snssdk.com") || same(host, "aweme-hl.snssdk.com")
}

/// `host` is the domain `suffix` or lies in it.
pub open spec fn is_in_domain(host: Seq<char>, suffix: Seq<char>) -> bool {
    host == suffix || ("."@ + suffix).is_suffix_of(host)
}

/// Whether `hostname` is the domain `suffix` or lies in it.
pub fn host_matches(hostname: &str, suffix: &str) -> (found: bool)
    ensures
        found == is_in_domain(hostname@, suffix@),
{
    let dotted = join2(".", suffix);
    same(hostname, suffix) || ends_with(hostname, dotted.as_str())
}

/// The domains that media files are served from.
pub open spec fn is_media_host(host: Seq<char>) -> bool {
    ||| is_in_domain(host, "zjcdn.com"@)
    ||| is_in_domain(host, "douyinvod.com"@)
    ||| is_in_domain(host, "bytecdntp.com"@)
    ||| is_in_domain(host, "bytecdn.cn"@)
}

fn media_host(host: &str) -> (found: bool)
    ensures
        found == is_media_host(host@),
{
    host_matches(host, "zjcdn.com") || host_matches(host, "douyinvod.com") || host_matches(
        host,
        "bytecdntp.com",
    ) || host_matches(host, "bytecdn.cn")
}

/// The domains that images are served from.
pub open spec fn is_image_host(host: Seq<char>) -> bool {
    ||| is_in_domain(host, "douyinpic.com"@)
    ||| is_in_domain(host, "douyincdn.com"@)
    ||| is_in_domain(host, "byteimg.com"@)
    ||| is_in_domain(host, "bytecdn.cn"@)
    ||| is_in_domain(host, "pstatp.com"@)
    ||| is_in_domain(host, "ibytedapm.com"@)
}

fn image_host(host: &str) -> (found: bool)
    ensures
        found == is_image_host(host@),
{
    host_matches(host, "douyinpic.com") || host_matches(host, "douyincdn.com") || host_matches(
        host,
        "byteimg.com",
    ) || host_matches(host, "bytecdn.cn") || host_matches(host, "pstatp.com") || host_matches(
        host,
        "ibytedapm.com",
    )
}

/// The host's name in small letters; an address or a missing host is refused.
pub open spec fn named_host(url: UrlModel) -> Result<Seq<char>, ErrorModel> {
    match url.domain {
        Some(name) => Ok(lower(name)),
        None => match url.host {
            Some(_) => Err(bad_request("invalid_url"@, "The URL must use a named host."@)),
            None => Err(bad_request("invalid_url"@, "The URL must include a host."@)),
        },
    }
}

/// The host's name in small letters; an address or a missing host is refused.
pub fn named_hostname(url: &WebUrl) -> (host: Result<String, ResolveError>)
    ensures
        agrees(host, named_host(url@)),
        host is Ok ==> url@.host == url@.domain,
{
    match url.domain() {
        Some(name) => Ok(to_lower(name.as_str())),
        None => match url.host() {
            Some(_) => Err(
                ResolveError::bad_request("invalid_url", "The URL must use a named host."),
            ),
            None => Err(ResolveError::bad_request("invalid_url", "The URL must include a host.")),
        },
    }
}

/// The name of the host of a plain HTTPS URL: no credentials, no port but the
/// usual one, and a host with a name. `label` says in errors which URL it is.
pub open spec fn basic_https(url: UrlModel, label: Seq<char>) -> Result<Seq<char>, ErrorModel> {
    if url.scheme != "https"@ {
        Err(bad_request("invalid_url"@, label + " must use HTTPS."@))
    } else if url.username.len() > 0 || url.has_password || (url.port is Some && url.port
        != Some(443u16)) {
        Err(
            bad_request(
                "invalid_url"@,
                label + " must not contain credentials or a custom port."@,
            ),
        )
    } else {
        named_host(url)
    }
}

/// The name of the host of a plain HTTPS URL; see [`basic_https`].
pub fn assert_basic_https_url(url: &WebUrl, label: &str) -> (host: Result<String, ResolveError>)
    ensures
        agrees(host, basic_https(url@, label@)),
        host is Ok ==> url@.host == url@.domain,
{
    if !same(url.scheme(), "https") {
        let message = join2(label, " must use HTTPS.");
        return Err(ResolveError::bad_request("invalid_url", message.as_str()));
    }
    let custom_port = match url.port() {
        Some(port) => port != 443,
        None => false,
    };
    if !url.username().is_empty() || url.has_password() || custom_port {
        let message = join2(label, " must not contain credentials or a custom port.");
        return Err(ResolveError::bad_request("invalid_url", message.as_str()));
    }
    named_hostname(url)
}

/// An HTTPS URL without credentials on the usual port.
pub open spec fn is_plain_https(url: UrlModel) -> bool {
    &&& url.is_https()
    &&& url.username.len() == 0
    &&& !url.has_password
    &&& url.port is None || url.port == Some(443u16)
}

/// A plain HTTPS URL on one of the hosts that share documents are read from.
pub open spec fn is_on_document_host(url: UrlModel) -> bool {
    &&& is_plain_https(url)
    &&& url.domain matches Some(name) && is_document_host(lower(name))
}

/// A plain HTTPS URL on a host that media is fetched from: a play endpoint, or a
/// media file.
pub open spec fn is_on_media_host(url: UrlModel) -> bool {
    &&& is_plain_https(url)
    &&& url.domain matches Some(name) && ((is_play_host(lower(name)) && is_play_path(url.path))
        || is_media_host(lower(name)))
}

/// A plain HTTPS URL on a host that images are fetched from.
pub open spec fn is_on_image_host(url: UrlModel) -> bool {
    &&& is_plain_https(url)
    &&& url.domain matches Some(name) && is_image_host(lower(name))
}

/// The URL, if share documents are read from it.
pub open spec fn document_checked(url: UrlModel) -> Result<UrlModel, ErrorModel> {
    match basic_https(url, "The share URL"@) {
        Err(error) => Err(error),
        Ok(host) => if is_document_host(host) {
            Ok(url)
        } else {
            Err(bad_request("unsupported_host"@, "Unsupported share host: "@ + host))
        },
    }
}

/// The URL, if share documents are read from it.
pub fn validate_document_url(url: WebUrl) -> (checked: Result<WebUrl, ResolveError>)
    ensures
        agrees(checked, document_checked(url@)),
        checked matches Ok(url) ==> is_on_document_host(url@),
{
    match assert_basic_https_url(&url, "The share URL") {
        Err(error) => Err(error),
        Ok(host) => {
            if !document_host(host.as_str()) {
                let message = join2("Unsupported share host: ", host.as_str());
                return Err(ResolveError::bad_request("unsupported_host", message.as_str()));
            }
            Ok(url)
        },
    }
}

/// The document URL that the text reads as.
pub open spec fn document_read(text: Seq<char>) -> Result<UrlModel, ErrorModel> {
    match url_parsed(text) {
        Some(url) => document_checked(url),
        None => Err(bad_request("invalid_url"@, "The share URL is not valid."@)),
    }
}

/// The document URL that the text reads as.
pub fn assert_document_url(value: &str) -> (checked: Result<WebUrl, ResolveError>)
    ensures
        agrees(checked, document_read(value@)),
        checked matches Ok(url) ==> is_on_document_host(url@),
{
    match WebUrl::parse(value) {
        Some(url) => validate_document_url(url),
        None => Err(ResolveError::bad_request("invalid_url", "The share URL is not valid.")),
    }
}

/// The character is an `s`, whatever its case; the long `s` is one too.
pub open spec fn is_letter_s(character: char) -> bool {
    character == 's' || character == 'S' || character == 'ſ'
}

/// The character may stand in a link.
pub open spec fn is_link_char(character: char) -> bool {
    &&& !is_space(character)
    &&& character != '<'
    &&& character != '>'
    &&& character != '"'
    &&& character != '\''
    &&& character != '`'
}

/// The length of the `http://` or `https://` that stands in the text at a
/// position, in small or capital letters; zero where there is none.
pub open spec fn link_head(text: Seq<char>, at: int) -> int {
    if 0 <= at && at + 7 <= text.len() && lower(text.subrange(at, at + 7)) == "http://"@ {
        7
    } else if 0 <= at && at + 8 <= text.len() && lower(text.subrange(at, at + 4)) == "http"@
        && is_letter_s(text[at + 4]) && text.subrange(at + 5, at + 8) == "://"@ {
        8
    } else {
        0
    }
}

/// A link stands in the text at a position: its head, and at least one character
/// more.
pub open spec fn is_link_at(text: Seq<char>, at: int) -> bool {
    let from = at + link_head(text, at);
    from > at && from < text.len() && is_link_char(text[from])
}

/// The first position, from `from` on, whose character may not stand in a link.
pub open spec fn link_end(text: Seq<char>, from: int) -> int
    decreases text.len() - from,
{
    if 0 <= from < text.len() && is_link_char(text[from]) {
        link_end(text, from + 1)
    } else {
        from
    }
}

/// The first link in the text that starts at `from` or later.
pub open spec fn link_from(text: Seq<char>, from: int) -> Option<Seq<char>>
    decreases text.len() - from,
{
    if from < 0 || from >= text.len() {
        None
    } else if is_link_at(text, from) {
        Some(text.subrange(from, link_end(text, from + link_head(text, from))))
    } else {
        link_from(text, from + 1)
    }
}

/// The first link in a text.
pub open spec fn first_link(text: Seq<char>) -> Option<Seq<char>> {
    link_from(text, 0)
}

/// Punctuation that follows an address in a share text and is no part of it.
pub open spec fn is_share_punctuation(character: char) -> bool {
    ||| character == ')'
    ||| character == ','
    ||| character == '.'
    ||| character == ';'
    ||| character == '!'
    ||| character == '?'
    ||| character == '，'
    ||| character == '。'
    ||| character == '！'
    ||| character == '？'
    ||| character == '；'
    ||| character == '：'
    ||| character == '、'
    ||| character == '）'
    ||| character == '》'
    ||| character == '」'
}

fn share_punctuation(character: char) -> (found: bool)
    ensures
        found == is_share_punctuation(character),
{
    character == ')' || character == ',' || character == '.' || character == ';' || character
        == '!' || character == '?' || character == '，' || character == '。' || character == '！'
        || character == '？' || character == '；' || character == '：' || character == '、'
        || character == '）' || character == '》' || character == '」'
}

/// The document URL of the address that was found in a share text.
pub open spec fn found_document(found: Option<Seq<char>>) -> Result<UrlModel, ErrorModel> {
    match found {
        Some(address) => document_read(
            trim_end_by(address, |character: char| is_share_punctuation(character)),
        ),
        None => Err(
            bad_request("missing_url"@, "No HTTP or HTTPS URL was found in the share text."@),
        ),
    }
}

/// The document URL in a share text.
pub open spec fn share_document(input: Seq<char>) -> Result<UrlModel, ErrorModel> {
    let text = trimmed(input);
    if text.len() == 0 {
        Err(bad_request("missing_input"@, "Paste a share link first."@))
    } else if encode_utf8(text).len() > MAX_INPUT_BYTES {
        Err(bad_request("input_too_large"@, "The share text is too large."@))
    } else {
        found_document(first_link(text))
    }
}

fn trim_share_punctuation(text: &str) -> (inner: String)
    ensures
        inner@ == trim_end_by(text@, |character: char| is_share_punctuation(character)),
{
    let chars = chars_of(text);
    let ghost drop = |character: char| is_share_punctuation(character);
    let mut to: usize = chars.len();
    assert(chars@.take(to as int) =~= chars@);
    while to > 0 && share_punctuation(chars[to - 1])
        invariant
            to <= chars@.len(),
            drop == (|character: char| is_share_punctuation(character)),
            trim_end_by(chars@.take(to as int), drop) == trim_end_by(chars@, drop),
        decreases to,
    {
        assert(chars@.take(to as int).drop_last() =~= chars@.take(to - 1));
        to = to - 1;
    }
    assert(chars@.take(to as int) =~= chars@.subrange(0, to as int));
    string_of(&chars, 0, to)
}

fn letter_s(character: char) -> (found: bool)
    ensures
        found == is_letter_s(character),
{
    character == 's' || character == 'S' || character == 'ſ'
}

fn link_char(character: char) -> (found: bool)
    ensures
        found == is_link_char(character),
{
    !is_white_space(character) && character != '<' && character != '>' && character != '"'
        && character != '\'' && character != '`'
}

fn find_link_head(chars: &Vec<char>, at: usize) -> (length: usize)
    requires
        at < chars@.len(),
    ensures
        length == link_head(chars@, at as int),
{
    if chars.len() - at >= 7 {
        let head = string_of(chars, at, at + 7);
        let small = to_lower(head.as_str());
        if same(small.as_str(), "http://") {
            return 7;
        }
    }
    if chars.len() - at >= 8 && letter_s(chars[at + 4]) {
        let head = string_of(chars, at, at + 4);
        let small = to_lower(head.as_str());
        let tail = string_of(chars, at + 5, at + 8);
        if same(small.as_str(), "http") && same(tail.as_str(), "://") {
            return 8;
        }
    }
    0
}

fn find_link_end(chars: &Vec<char>, from: usize) -> (end: usize)
    requires
        from <= chars@.len(),
    ensures
        end == link_end(chars@, from as int),
        from <= end <= chars@.len(),
{
    let mut end: usize = from;
    while end < chars.len() && link_char(chars[end])
        invariant
            from <= end <= chars@.len(),
            link_end(chars@, from as int) == link_end(chars@, end as int),
        decreases chars@.len() - end,
    {
        end = end + 1;
    }
    end
}

/// The first link in a text.
pub fn find_link(text: &str) -> (link: Option<String>)
    ensures
        optional_text(link) == first_link(text@),
{
    let chars = chars_of(text);
    let mut at: usize = 0;
    while at < chars.len()
        invariant
            at <= chars@.len(),
            chars@ == text@,
            first_link(text@) == link_from(chars@, at as int),
        decreases chars@.len() - at,
    {
        let head: usize = find_link_head(&chars, at);
        if head > 0 && head < chars.len() - at && link_char(chars[at + head]) {
            let end: usize = find_link_end(&chars, at + head);
            return Some(string_of(&chars, at, end));
        }
        at = at + 1;
    }
    None
}

/// The document URL in a share text: the first address in it, without the
/// punctuation that follows.
pub fn extract_share_url(input: &str) -> (checked: Result<WebUrl, ResolveError>)
    ensures
        agrees(checked, share_document(input@)),
        checked matches Ok(url) ==> is_on_document_host(url@),
{
    let text = trim(input);
    if text.as_str().is_empty() {
        return Err(ResolveError::bad_request("missing_input", "Paste a share link first."));
    }
    if text.as_str().as_bytes().len() > MAX_INPUT_BYTES {
        return Err(ResolveError::bad_request("input_too_large", "The share text is too large."));
    }
    match find_link(text.as_str()) {
        Some(link) => {
            let address = trim_share_punctuation(link.as_str());
            assert_document_url(address.as_str())
        },
        None => Err(
            ResolveError::bad_request(
                "missing_url",
                "No HTTP or HTTPS URL was found in the share text.",
            ),
        ),
    }
}

/// The length of the `/video/` or `/note/` that stands in a path at a position;
/// zero where there is neither.
pub open spec fn video_head(path: Seq<char>, at: int) -> int {
    if occurs_at(path, "/video/"@, at) {
        7
    } else if occurs_at(path, "/note/"@, at) {
        6
    } else {
        0
    }
}

/// A video's number stands in a path after a head at a position.
pub open spec fn is_video_at(path: Seq<char>, at: int) -> bool {
    let from = at + video_head(path, at);
    from > at && from < path.len() && is_digit(path[from])
}

/// The first position, from `from` on, whose character is no digit.
pub open spec fn digits_end(path: Seq<char>, from: int) -> int
    decreases path.len() - from,
{
    if 0 <= from < path.len() && is_digit(path[from]) {
        digits_end(path, from + 1)
    } else {
        from
    }
}

/// The number of the first video in a path whose head is at `from` or later.
pub open spec fn video_from(path: Seq<char>, from: int) -> Option<Seq<char>>
    decreases path.len() - from,
{
    if from < 0 || from >= path.len() {
        None
    } else if is_video_at(path, from) {
        let start = from + video_head(path, from);
        Some(path.subrange(start, digits_end(path, start)))
    } else {
        video_from(path, from + 1)
    }
}

/// The number of the video that a document URL shows: the digits after the first
/// `/video/` or `/note/` in its path, or else a value of its query.
pub open spec fn video_in(url: UrlModel) -> Option<Seq<char>> {
    match video_from(url.path, 0) {
        Some(id) => Some(id),
        None => match first_value(url.pairs(), "modal_id"@) {
            Some(id) => Some(id),
            None => first_value(url.pairs(), "aweme_id"@),
        },
    }
}

fn find_video_head(chars: &Vec<char>, at: usize) -> (length: usize)
    requires
        at < chars@.len(),
    ensures
        length == video_head(chars@, at as int),
{
    let video = chars_of("/video/");
    let note = chars_of("/note/");
    proof {
        reveal_strlit("/video/");
        reveal_strlit("/note/");
    }
    if occurs(chars, &video, at) {
        7
    } else if occurs(chars, &note, at) {
        6
    } else {
        0
    }
}

fn find_digits_end(chars: &Vec<char>, from: usize) -> (end: usize)
    requires
        from <= chars@.len(),
    ensures
        end == digits_end(chars@, from as int),
        from <= end <= chars@.len(),
{
    let mut end: usize = from;
    while end < chars.len() && is_ascii_digit(chars[end])
        invariant
            from <= end <= chars@.len(),
            digits_end(chars@, from as int) == digits_end(chars@, end as int),
        decreases chars@.len() - end,
    {
        end = end + 1;
    }
    end
}

fn find_path_video(path: &str) -> (id: Option<String>)
    ensures
        optional_text(id) == video_from(path@, 0),
{
    let chars = chars_of(path);
    let mut at: usize = 0;
    while at < chars.len()
        invariant
            at <= chars@.len(),
            chars@ == path@,
            video_from(path@, 0) == video_from(chars@, at as int),
        decreases chars@.len() - at,
    {
        if chars[at] == '/' {
            let head: usize = find_video_head(&chars, at);
            if head > 0 && head < chars.len() - at && is_ascii_digit(chars[at + head]) {
                let start: usize = at + head;
                let end: usize = find_digits_end(&chars, start);
                return Some(string_of(&chars, start, end));
            }
        } else {
            proof {
                lemma_video_head(chars@, at as int);
            }
        }
        at = at + 1;
    }
    None
}

/// Both heads start with a slash.
proof fn lemma_video_head(path: Seq<char>, at: int)
    requires
        0 <= at < path.len(),
        path[at] != '/',
    ensures
        video_head(path, at) == 0,
{
    reveal_strlit("/video/");
    reveal_strlit("/note/");
    if occurs_at(path, "/video/"@, at) {
        assert(path.subrange(at, at + 7)[0] == path[at]);
    }
    if occurs_at(path, "/note/"@, at) {
        assert(path.subrange(at, at + 6)[0] == path[at]);
    }
}

/// The number of the video that a document URL shows.
pub fn extract_video_id(url: &WebUrl) -> (id: Option<String>)
    ensures
        optional_text(id) == video_in(url@),
{
    match find_path_video(url.path()) {
        Some(id) => Some(id),
        None => match url.first_value("modal_id") {
            Some(id) => Some(id),
            None => url.first_value("aweme_id"),
        },
    }
}

/// A video's number is one or more digits.
pub open spec fn is_video_id(id: Seq<char>) -> bool {
    id.len() > 0 && all_digits(id)
}

fn valid_video_id(id: &str) -> (valid: bool)
    ensures
        valid == is_video_id(id@),
{
    let chars = chars_of(id);
    let mut at: usize = 0;
    while at < chars.len()
        invariant
            at <= chars@.len(),
            chars@ == id@,
            forall|i: int| 0 <= i < at ==> crate::text::is_digit(#[trigger] chars@[i]),
        decreases chars@.len() - at,
    {
        if !is_ascii_digit(chars[at]) {
            return false;
        }
        at = at + 1;
    }
    chars.len() > 0
}

pub open spec fn invalid_video_id() -> ErrorModel {
    bad_request("invalid_video_id"@, "The video ID is not valid."@)
}

/// The document that shows a video with this number.
pub open spec fn video_document(id: Seq<char>) -> UrlModel {
    plain_url("www.iesdouyin.com"@, "/share/video/"@ + id + "/"@)
}

/// The document that shows a video. Every video has one.
pub open spec fn canonical_document(id: Seq<char>) -> Result<UrlModel, ErrorModel> {
    if is_video_id(id) {
        Ok(video_document(id))
    } else {
        Err(invalid_video_id())
    }
}

proof fn lemma_video_document(id: Seq<char>)
    requires
        is_video_id(id),
    ensures
        is_plain_host("www.iesdouyin.com"@),
        "www.iesdouyin.com"@.len() == 17,
        is_plain_path("/share/video/"@ + id + "/"@),
        video_document(id).text() == "https://www.iesdouyin.com/share/video/"@ + id + "/"@,
{
    reveal_strlit("www.iesdouyin.com");
    reveal_strlit("https://");
    reveal_strlit("/share/video/");
    reveal_strlit("/");
    reveal_strlit("https://www.iesdouyin.com/share/video/");
    let path = "/share/video/"@ + id + "/"@;
    assert forall|i: int| 0 <= i < path.len() implies is_plain(#[trigger] path[i]) || path[i]
        == '/' by {
        if 13 <= i < 13 + id.len() {
            assert(path[i] == id[i - 13]);
        }
    }
    assert forall|i: int| 0 <= i < path.len() - 1 implies !(path[i] == '/' && #[trigger] path[i + 1]
        == '/') by {
        if 13 <= i < 13 + id.len() {
            assert(path[i] == id[i - 13]);
        }
        if 13 <= i + 1 < 13 + id.len() {
            assert(path[i + 1] == id[i + 1 - 13]);
        }
    }
    assert(video_document(id).text() =~= "https://www.iesdouyin.com/share/video/"@ + id + "/"@);
}

/// The document that shows a video. Every video has one.
pub fn canonical_video_document(video_id: &str) -> (document: Result<WebUrl, ResolveError>)
    ensures
        agrees(document, canonical_document(video_id@)),
{
    if !valid_video_id(video_id) {
        return Err(
            ResolveError::bad_request("invalid_video_id", "The video ID is not valid."),
        );
    }
    let text = join3("https://www.iesdouyin.com/share/video/", video_id, "/");
    proof {
        lemma_video_document(video_id@);
    }
    match WebUrl::parse(text.as_str()) {
        Some(url) => Ok(url),
        None => Err(ResolveError::bad_request("invalid_video_id", "The video ID is not valid.")),
    }
}

/// The query of a detail request.
spec fn detail_query(id: Seq<char>) -> Seq<char> {
    query_with(
        Some(
            query_with(
                Some(
                    query_with(
                        Some(
                            query_with(
                                Some(query_with(None, "aweme_id"@, id)),
                                "aid"@,
                                "6383"@,
                            ),
                        ),
                        "device_platform"@,
                        "web"@,
                    ),
                ),
                "version_code"@,
                "280500"@,
            ),
        ),
        "version_name"@,
        "28.5.0"@,
    )
}

/// The detail query written out.
proof fn lemma_detail_query(id: Seq<char>)
    ensures
        detail_query(id) == "aweme_id="@ + id
            + "&aid=6383&device_platform=web&version_code=280500&version_name=28.5.0"@,
{
    reveal_strlit("aweme_id");
    reveal_strlit("aid");
    reveal_strlit("6383");
    reveal_strlit("device_platform");
    reveal_strlit("web");
    reveal_strlit("version_code");
    reveal_strlit("280500");
    reveal_strlit("version_name");
    reveal_strlit("28.5.0");
    reveal_strlit("=");
    reveal_strlit("&");
    reveal_strlit("aweme_id=");
    reveal_strlit("&aid=6383&device_platform=web&version_code=280500&version_name=28.5.0");
    assert(detail_query(id) =~= "aweme_id="@ + id
        + "&aid=6383&device_platform=web&version_code=280500&version_name=28.5.0"@);
}

/// The address of a video's details, on the document's own origin: the path,
/// the query and the fragment are replaced, and all else is the document's.
pub open spec fn detail_address(document: UrlModel, id: Seq<char>) -> Result<
    UrlModel,
    ErrorModel,
> {
    if is_video_id(id) {
        Ok(
            UrlModel {
                path: "/aweme/v1/aweme/detail/"@,
                query: Some(
                    "aweme_id="@ + id
                        + "&aid=6383&device_platform=web&version_code=280500&version_name=28.5.0"@,
                ),
                fragment: None,
                ..document
            },
        )
    } else {
        Err(invalid_video_id())
    }
}

/// The address of a video's details on the document's own origin.
pub fn public_video_detail_url(document_url: &WebUrl, video_id: &str) -> (detail: Result<
    WebUrl,
    ResolveError,
>)
    requires
        document_url@.is_https(),
        document_url@.text().len() + video_id@.len() <= 0xffff_ff00,
    ensures
        agrees(detail, detail_address(document_url@, video_id@)),
{
    if !valid_video_id(video_id) {
        return Err(
            ResolveError::bad_request("invalid_video_id", "The video ID is not valid."),
        );
    }
    proof {
        lemma_detail_query(video_id@);
        reveal_strlit("?");
        reveal_strlit("=");
        reveal_strlit("&");
        reveal_strlit("/aweme/v1/aweme/detail/");
        reveal_strlit("aweme_id");
        reveal_strlit("aid");
        reveal_strlit("6383");
        reveal_strlit("device_platform");
        reveal_strlit("web");
        reveal_strlit("version_code");
        reveal_strlit("280500");
        reveal_strlit("version_name");
        reveal_strlit("28.5.0");
    }
    let placed = document_url.with_path("/aweme/v1/aweme/detail/");
    let bare = placed.without_query().without_fragment();
    let named = bare.with_pair("aweme_id", video_id);
    let aid = named.with_pair("aid", "6383");
    let platform = aid.with_pair("device_platform", "web");
    let code = platform.with_pair("version_code", "280500");
    let url = code.with_pair("version_name", "28.5.0");
    Ok(url)
}

/// The document's origin and path, without its query and fragment.
pub fn public_document_label(url: &WebUrl) -> (label: String)
    requires
        url@.is_https(),
    ensures
        label@ == url@.origin() + url@.path,
{
    let origin = url.origin();
    join2(origin.as_str(), url.path())
}

/// What a media URL leads to.
#[derive(Debug, Clone, Copy, PartialEq, Eq, Structural)]
pub enum Directness {
    /// An endpoint that redirects to a media file.
    PlayEndpoint,
    /// A media file.
    CdnMedia,
    /// Neither of the two.
    Unknown,
}

pub open spec fn directness_text(directness: Directness) -> Seq<char> {
    match directness {
        Directness::PlayEndpoint => "play-endpoint"@,
        Directness::CdnMedia => "cdn-media"@,
        Directness::Unknown => "unknown"@,
    }
}

impl Directness {
    pub fn as_str(self) -> (text: &'static str)
        ensures
            text@ == directness_text(self),
    {
        match self {
            Directness::PlayEndpoint => "play-endpoint",
            Directness::CdnMedia => "cdn-media",
            Directness::Unknown => "unknown",
        }
    }
}

/// The path lies below one of the two play endpoints.
pub open spec fn is_play_path(path: Seq<char>) -> bool {
    "/aweme/v1/play/"@.is_prefix_of(path) || "/aweme/v1/playwm/"@.is_prefix_of(path)
}

/// The path has the ending of a media file; small letters are expected.
pub open spec fn has_media_ending(path: Seq<char>) -> bool {
    ||| ".mp4"@.is_suffix_of(path)
    ||| ".m4v"@.is_suffix_of(path)
    ||| ".mov"@.is_suffix_of(path)
}

pub fn media_ending(path: &str) -> (found: bool)
    ensures
        found == has_media_ending(path@),
{
    ends_with(path, ".mp4") || ends_with(path, ".m4v") || ends_with(path, ".mov")
}

/// The query says that the media is a video file.
pub open spec fn has_video_type(url: UrlModel) -> bool {
    url.pairs().contains(("mime_type"@, "video_mp4"@))
}

/// The URL looks like that of a media file.
pub open spec fn has_media_shape(url: UrlModel) -> bool {
    ||| holds_text(lower(url.path), "/video/"@)
    ||| has_video_type(url)
    ||| has_media_ending(lower(url.path))
}

/// What a URL leads to, by its host, path and query.
pub open spec fn classified(url: UrlModel) -> Directness {
    match url.host {
        None => Directness::Unknown,
        Some(host) => if is_play_host(lower(host)) && is_play_path(url.path) {
            Directness::PlayEndpoint
        } else if has_media_shape(url) && is_media_host(lower(host)) {
            Directness::CdnMedia
        } else {
            Directness::Unknown
        },
    }
}

/// What a URL leads to, by its host, path and query.
pub fn media_classification(url: &WebUrl) -> (directness: Directness)
    ensures
        directness == classified(url@),
{
    match url.host() {
        None => Directness::Unknown,
        Some(host) => {
            let host = to_lower(host.as_str());
            if play_host(host.as_str()) && (starts_with(url.path(), "/aweme/v1/play/")
                || starts_with(url.path(), "/aweme/v1/playwm/")) {
                return Directness::PlayEndpoint;
            }
            let path = to_lower(url.path());
            let media_shape = contains(path.as_str(), "/video/") || url.has_pair(
                "mime_type",
                "video_mp4",
            ) || media_ending(path.as_str());
            if media_shape && media_host(host.as_str()) {
                Directness::CdnMedia
            } else {
                Directness::Unknown
            }
        },
    }
}

/// The URL, if media is fetched from it.
pub open spec fn media_checked(url: UrlModel) -> Result<UrlModel, ErrorModel> {
    match basic_https(url, "The media URL"@) {
        Err(error) => Err(error),
        Ok(host) => if classified(url) == Directness::Unknown {
            Err(upstream("unsupported_media_host"@, "Unsupported media redirect host: "@ + host))
        } else {
            Ok(url)
        },
    }
}

/// The URL, if there is one and media is fetched from it.
pub open spec fn media_accepted(url: Option<UrlModel>) -> Result<UrlModel, ErrorModel> {
    match url {
        Some(url) => media_checked(url),
        None => Err(
            upstream("invalid_media_redirect"@, "The media redirect URL is not valid."@),
        ),
    }
}

/// The media URL that the text reads as, on a page at `base` where there is one.
pub open spec fn media_read(text: Seq<char>, base: Option<UrlModel>) -> Result<
    UrlModel,
    ErrorModel,
> {
    match base {
        Some(base) => media_accepted(url_joined(base.text(), text)),
        None => media_accepted(url_parsed(text)),
    }
}

pub open spec fn optional_url_ref(url: Option<&WebUrl>) -> Option<UrlModel> {
    match url {
        Some(url) => Some(url@),
        None => None,
    }
}

/// The URL, if there is one and media is fetched from it.
pub fn accept_media_url(url: Option<WebUrl>) -> (checked: Result<WebUrl, ResolveError>)
    ensures
        agrees(checked, media_accepted(optional_url(url))),
        checked matches Ok(url) ==> is_on_media_host(url@),
{
    match url {
        Some(url) => match assert_basic_https_url(&url, "The media URL") {
            Err(error) => Err(error),
            Ok(host) => {
                match media_classification(&url) {
                    Directness::Unknown => {
                        let message = join2("Unsupported media redirect host: ", host.as_str());
                        Err(ResolveError::upstream("unsupported_media_host", message.as_str()))
                    },
                    _ => Ok(url),
                }
            },
        },
        None => Err(
            ResolveError::upstream(
                "invalid_media_redirect",
                "The media redirect URL is not valid.",
            ),
        ),
    }
}

/// The media URL that the text reads as, on a page at `base` where there is one.
pub fn parse_media_url(value: &str, base: Option<&WebUrl>) -> (checked: Result<
    WebUrl,
    ResolveError,
>)
    ensures
        agrees(checked, media_read(value@, optional_url_ref(base))),
        checked matches Ok(url) ==> is_on_media_host(url@),
{
    match base {
        Some(base) => accept_media_url(base.join(value)),
        None => accept_media_url(WebUrl::parse(value)),
    }
}

/// The URL that the text reads as, if media may be downloaded from it.
pub fn validate_download_url(value: &str) -> (checked: Result<WebUrl, ResolveError>)
    ensures
        agrees(checked, media_read(value@, None)),
        checked matches Ok(url) ==> is_on_media_host(url@),
{
    parse_media_url(value, None)
}

/// The kind of playback that a URL offers.
pub open spec fn playback_variant(url: UrlModel) -> Option<Seq<char>> {
    match url.host {
        None => None,
        Some(host) => if is_play_host(lower(host)) && url.path == "/aweme/v1/play/"@ {
            Some("play"@)
        } else if is_play_host(lower(host)) && url.path == "/aweme/v1/playwm/"@ {
            Some("playwm"@)
        } else if classified(url) == Directness::CdnMedia {
            Some("direct"@)
        } else {
            None
        },
    }
}

/// The kind of playback that a URL offers.
pub fn playback_variant_for_url(url: &WebUrl) -> (variant: Option<String>)
    ensures
        optional_text(variant) == playback_variant(url@),
{
    match url.host() {
        None => None,
        Some(host) => {
            let host = to_lower(host.as_str());
            if play_host(host.as_str()) && same(url.path(), "/aweme/v1/play/") {
                return Some(owned("play"));
            }
            if play_host(host.as_str()) && same(url.path(), "/aweme/v1/playwm/") {
                return Some(owned("playwm"));
            }
            match media_classification(url) {
                Directness::CdnMedia => Some(owned("direct")),
                _ => None,
            }
        },
    }
}

/// The play endpoint without a mark for a media URL of the endpoint with one:
/// the same URL with only the path changed. `None` for all other media URLs.
pub open spec fn clean_play(url: UrlModel) -> Option<UrlModel> {
    if url.path == "/aweme/v1/playwm/"@ && first_value(url.pairs(), "video_id"@) is Some {
        Some(UrlModel { path: "/aweme/v1/play/"@, ..url })
    } else {
        None
    }
}

/// The play endpoint without a mark that corresponds to a media URL, if there
/// is one; see [`clean_play`].
pub fn derive_clean_play_url(value: &str) -> (clean: Result<Option<WebUrl>, ResolveError>)
    ensures
        match clean {
            Ok(clean) => media_read(value@, None) matches Ok(url) && optional_url(clean)
                == clean_play(url),
            Err(error) => media_read(value@, None) == Err::<UrlModel, ErrorModel>(error@),
        },
{
    match parse_media_url(value, None) {
        Err(error) => Err(error),
        Ok(source) => {
            if !same(source.path(), "/aweme/v1/playwm/") || source.first_value(
                "video_id",
            ).is_none() {
                return Ok(None);
            }
            proof {
                reveal_strlit("/aweme/v1/playwm/");
                reveal_strlit("/aweme/v1/play/");
            }
            Ok(Some(source.with_path("/aweme/v1/play/")))
        },
    }
}

/// The path is that of a still image; small letters are expected.
pub open spec fn is_picture_path(path: Seq<char>) -> bool {
    ||| ".avif"@.is_suffix_of(path)
    ||| ".gif"@.is_suffix_of(path)
    ||| ".jpg"@.is_suffix_of(path)
    ||| ".jpeg"@.is_suffix_of(path)
    ||| ".png"@.is_suffix_of(path)
    ||| ".svg"@.is_suffix_of(path)
    ||| ".webp"@.is_suffix_of(path)
    ||| holds_text(path, "avatar"@)
    ||| holds_text(path, "cover"@)
    ||| holds_text(path, "poster"@)
}

fn picture_path(path: &str) -> (found: bool)
    ensures
        found == is_picture_path(path@),
{
    ends_with(path, ".avif") || ends_with(path, ".gif") || ends_with(path, ".jpg") || ends_with(
        path,
        ".jpeg",
    ) || ends_with(path, ".png") || ends_with(path, ".svg") || ends_with(path, ".webp")
        || contains(path, "avatar") || contains(path, "cover") || contains(path, "poster")
}

/// An address as pages hold it, with entities and escapes decoded.
pub open spec fn address_decoded(value: Seq<char>) -> Seq<char> {
    backslashes_decoded(entities_decoded(trimmed(value)))
}

/// An address with the scheme that a leading `//` leaves out.
pub open spec fn with_scheme(address: Seq<char>) -> Seq<char> {
    if "//"@.is_prefix_of(address) {
        "https:"@ + address
    } else {
        address
    }
}

/// A decoded address, percent-decoded where its scheme is percent-encoded.
pub open spec fn candidate_text(address: Seq<char>) -> Option<Seq<char>> {
    let encoded = "http%3a"@.is_prefix_of(lower(address)) || "https%3a"@.is_prefix_of(
        lower(address),
    );
    let plain = if encoded {
        percent_decoded(address)
    } else {
        Some(address)
    };
    match plain {
        Some(plain) => Some(with_scheme(plain)),
        None => None,
    }
}

/// The URL as a media candidate: a plain HTTPS URL that is not that of a
/// picture, without its fragment.
pub open spec fn candidate_checked(url: UrlModel) -> Option<UrlModel> {
    if basic_https(url, "The media URL"@) is Ok && !is_picture_path(lower(url.path)) {
        Some(UrlModel { fragment: None, ..url })
    } else {
        None
    }
}

/// The media candidate at an address whose entities and escapes are decoded.
pub open spec fn candidate_read(address: Seq<char>) -> Option<UrlModel> {
    match candidate_text(address) {
        None => None,
        Some(text) => match url_parsed(text) {
            None => None,
            Some(url) => candidate_checked(url),
        },
    }
}

/// The media candidate at an address as pages hold it.
pub open spec fn candidate_url(value: Seq<char>) -> Option<UrlModel> {
    candidate_read(address_decoded(value))
}

/// The URL as a media candidate; see [`candidate_checked`].
pub fn check_candidate_url(url: &WebUrl) -> (candidate: Option<WebUrl>)
    ensures
        optional_url(candidate) == candidate_checked(url@),
{
    if assert_basic_https_url(url, "The media URL").is_err() {
        return None;
    }
    let bare = url.without_fragment();
    let path = to_lower(bare.path());
    if picture_path(path.as_str()) {
        return None;
    }
    Some(bare)
}

/// The media candidate at an address whose entities and escapes are decoded.
pub fn read_candidate_url(address: &str) -> (candidate: Option<WebUrl>)
    ensures
        optional_url(candidate) == candidate_read(address@),
{
    let small = to_lower(address);
    let plain = if starts_with(small.as_str(), "http%3a") || starts_with(
        small.as_str(),
        "https%3a",
    ) {
        match percent_decode(address) {
            Some(plain) => plain,
            None => {
                return None;
            },
        }
    } else {
        owned(address)
    };
    let text = if starts_with(plain.as_str(), "//") {
        join2("https:", plain.as_str())
    } else {
        plain
    };
    match WebUrl::parse(text.as_str()) {
        Some(url) => check_candidate_url(&url),
        None => None,
    }
}

/// The media candidate at an address as pages hold it.
pub fn normalize_candidate_url(value: &str) -> (candidate: Option<WebUrl>)
    ensures
        optional_url(candidate) == candidate_url(value@),
{
    let inner = trim(value);
    let entities = decode_html_entities(inner.as_str());
    let address = decode_backslash_escapes(entities.as_str());
    read_candidate_url(address.as_str())
}

/// The URL, if it is a plain HTTPS URL on an image host.
pub open spec fn image_checked(url: UrlModel) -> Option<UrlModel> {
    match basic_https(url, "The image URL"@) {
        Ok(host) => if is_image_host(host) {
            Some(url)
        } else {
            None
        },
        Err(_) => None,
    }
}

/// Whether images are fetched from the URL.
pub fn on_image_host(url: &WebUrl) -> (found: bool)
    ensures
        found == is_on_image_host(url@),
{
    match assert_basic_https_url(url, "The image URL") {
        Err(_) => false,
        Ok(host) => image_host(host.as_str()),
    }
}

/// The image at an address whose entities and escapes are decoded.
pub open spec fn image_read(address: Seq<char>) -> Option<UrlModel> {
    match url_parsed(with_scheme(address)) {
        None => None,
        Some(url) => image_checked(url),
    }
}

/// The image at an address as pages hold it.
pub open spec fn image_url(value: Seq<char>) -> Option<UrlModel> {
    image_read(address_decoded(value))
}

/// The image at an address whose entities and escapes are decoded.
pub fn read_image_url(address: &str) -> (image: Option<WebUrl>)
    ensures
        optional_url(image) == image_read(address@),
        image matches Some(url) ==> is_on_image_host(url@),
{
    let text = if starts_with(address, "//") {
        join2("https:", address)
    } else {
        owned(address)
    };
    match WebUrl::parse(text.as_str()) {
        None => None,
        Some(url) => if on_image_host(&url) {
            Some(url)
        } else {
            None
        },
    }
}

/// The image at an address as pages hold it.
pub fn normalize_image_url(value: &str) -> (image: Option<WebUrl>)
    ensures
        optional_url(image) == image_url(value@),
        image matches Some(url) ==> is_on_image_host(url@),
{
    let inner = trim(value);
    let entities = decode_html_entities(inner.as_str());
    let address = decode_backslash_escapes(entities.as_str());
    read_image_url(address.as_str())
}

/// The image that may be downloaded from an address as pages hold it.
pub open spec fn image_download(value: Seq<char>) -> Result<UrlModel, ErrorModel> {
    match image_url(value) {
        Some(url) => Ok(url),
        None => Err(
            upstream(
                "unsupported_image_host"@,
                "The image URL is not a supported HTTPS image address."@,
            ),
        ),
    }
}

/// The image that may be downloaded from an address as pages hold it.
pub fn validate_image_download_url(value: &str) -> (checked: Result<WebUrl, ResolveError>)
    ensures
        agrees(checked, image_download(value@)),
        checked matches Ok(url) ==> is_on_image_host(url@),
{
    match normalize_image_url(value) {
        Some(url) => Ok(url),
        None => Err(
            ResolveError::upstream(
                "unsupported_image_host",
                "The image URL is not a supported HTTPS image address.",
            ),
        ),
    }
}

} // verus!
