//! Which addresses are accepted for what, stated by their schemes, hosts, paths
//! and queries, and what is found in share texts.
use crate::address::{
    candidate_checked, candidate_url, classified, clean_play, digits_end, document_checked,
    document_read, first_link, image_checked, image_url, is_link_char, link_end, link_from,
    link_head, media_checked, media_read, playback_variant, share_document, video_from, video_in,
    with_scheme, Directness,
};
use crate::decode::{backslashes_decoded, entities_decoded, percent_decoded};
use crate::errors::ErrorModel;
use crate::text::{holds_text, lower, occurs_at, trim_end_by, trimmed};
use crate::text_laws::{is_around, is_blank, parts_stand_between_others};
use crate::weburl::{url_joined, url_parsed, UrlModel};
use vstd::prelude::*;

verus! {

/// The host is the domain, or a name below it.
pub open spec fn is_below(host: Seq<char>, domain: Seq<char>) -> bool {
    host == domain || exists|name: Seq<char>| host == #[trigger] (name + "."@ + domain)
}

/// The URL is of HTTPS at its own port, names a host and nobody who asks.
pub open spec fn is_open_https(url: UrlModel) -> bool {
    &&& url.scheme == "https"@
    &&& url.username.len() == 0
    &&& !url.has_password
    &&& url.port is None || url.port == Some(443u16)
    &&& url.domain is Some
}

proof fn lemma_below(host: Seq<char>, domain: Seq<char>)
    ensures
        crate::address::is_in_domain(host, domain) <==> is_below(host, domain),
{
    let dotted = "."@ + domain;
    if dotted.is_suffix_of(host) {
        let name = host.take(host.len() - dotted.len());
        assert(host =~= name + dotted);
        assert(host =~= name + "."@ + domain);
    }
    if exists|name: Seq<char>| host == #[trigger] (name + "."@ + domain) {
        let name = choose|name: Seq<char>| host == #[trigger] (name + "."@ + domain);
        assert(host.subrange(host.len() - dotted.len(), host.len() as int) =~= dotted);
    }
}

/// A URL is written with its query behind a question mark and its fragment
/// behind a number sign, where it has them.
pub proof fn urls_are_written_in_parts(url: UrlModel, query: Seq<char>, fragment: Seq<char>)
    ensures
        url.query is None && url.fragment is None ==> url.text() == url.before_path + url.path,
        url.query == Some(query) && url.fragment is None ==> url.text() == url.before_path
            + url.path + "?"@ + query,
        url.query is None && url.fragment == Some(fragment) ==> url.text() == url.before_path
            + url.path + "#"@ + fragment,
        url.query == Some(query) && url.fragment == Some(fragment) ==> url.text()
            == url.before_path + url.path + "?"@ + query + "#"@ + fragment,
{
    let head = url.before_path + url.path;
    assert(head + (Seq::<char>::empty() + Seq::<char>::empty()) =~= head);
    assert(head + (("?"@ + query) + Seq::<char>::empty()) =~= head + "?"@ + query);
    assert(head + (Seq::<char>::empty() + ("#"@ + fragment)) =~= head + "#"@ + fragment);
    assert(head + (("?"@ + query) + ("#"@ + fragment)) =~= head + "?"@ + query + "#"@ + fragment);
}

/// Share documents are read from six hosts, in small or capital letters, and
/// from URLs that name nobody who asks and no other port. A URL on another host
/// is told apart from one of another form.
pub proof fn share_documents_are_on_six_hosts(url: UrlModel, text: Seq<char>)
    ensures
        ({
            let listed = url.domain matches Some(name) && (lower(name) == "douyin.com"@ || lower(
                name,
            ) == "www.douyin.com"@ || lower(name) == "m.douyin.com"@ || lower(name)
                == "v.douyin.com"@ || lower(name) == "iesdouyin.com"@ || lower(name)
                == "www.iesdouyin.com"@);
            &&& is_open_https(url) && listed ==> document_checked(url) == Ok::<UrlModel, ErrorModel>(
                url,
            )
            &&& is_open_https(url) && !listed ==> (document_checked(url) matches Err(error)
                && error.code == "unsupported_host"@ && error.status == 400)
            &&& !is_open_https(url) ==> (document_checked(url) matches Err(error) && error.code
                == "invalid_url"@ && error.status == 400)
        }),
        url_parsed(text) is None ==> (document_read(text) matches Err(error) && error.code
            == "invalid_url"@ && error.status == 400),
        url_parsed(text) matches Some(url) ==> document_read(text) == document_checked(url),
{
}

/// A URL that is refused is told why: for its scheme, for who asks or for its
/// port, because it has no name for its host, or for its host.
pub proof fn refused_urls_are_told_why(url: UrlModel)
    ensures
        url.scheme != "https"@ ==> (document_checked(url) matches Err(error) && error.error
            == "The share URL must use HTTPS."@) && (media_checked(url) matches Err(error)
            && error.error == "The media URL must use HTTPS."@),
        url.scheme == "https"@ && (url.username.len() > 0 || url.has_password || !(url.port is None
            || url.port == Some(443u16))) ==> (document_checked(url) matches Err(error)
            && error.error == "The share URL must not contain credentials or a custom port."@) && (
        media_checked(url) matches Err(error) && error.error
            == "The media URL must not contain credentials or a custom port."@),
        url.scheme == "https"@ && url.username.len() == 0 && !url.has_password && (url.port is None
            || url.port == Some(443u16)) && url.domain is None ==> (document_checked(
            url,
        ) matches Err(error) && error.error == (if url.host is Some {
            "The URL must use a named host."@
        } else {
            "The URL must include a host."@
        })),
        is_open_https(url) && document_checked(url) is Err ==> (document_checked(url) matches Err(
            error,
        ) && error.error == "Unsupported share host: "@ + lower(url.domain->0)),
        is_open_https(url) && media_checked(url) is Err ==> (media_checked(url) matches Err(error)
            && error.error == "Unsupported media redirect host: "@ + lower(url.domain->0)),
{
    reveal_strlit("The share URL");
    reveal_strlit("The media URL");
    reveal_strlit(" must use HTTPS.");
    reveal_strlit(" must not contain credentials or a custom port.");
    reveal_strlit("The share URL must use HTTPS.");
    reveal_strlit("The media URL must use HTTPS.");
    reveal_strlit("The share URL must not contain credentials or a custom port.");
    reveal_strlit("The media URL must not contain credentials or a custom port.");
    assert("The share URL"@ + " must use HTTPS."@ =~= "The share URL must use HTTPS."@);
    assert("The media URL"@ + " must use HTTPS."@ =~= "The media URL must use HTTPS."@);
    assert("The share URL"@ + " must not contain credentials or a custom port."@
        =~= "The share URL must not contain credentials or a custom port."@);
    assert("The media URL"@ + " must not contain credentials or a custom port."@
        =~= "The media URL must not contain credentials or a custom port."@);
}

/// The host is one of two that redirect to media files, and the path is that of
/// playback.
pub open spec fn is_endpoint(url: UrlModel) -> bool {
    &&& url.host matches Some(host) && (lower(host) == "aweme.snssdk.com"@ || lower(host)
        == "aweme-hl.snssdk.com"@)
    &&& "/aweme/v1/play/"@.is_prefix_of(url.path) || "/aweme/v1/playwm/"@.is_prefix_of(url.path)
}

/// The host is below one of four domains of media files, and the URL is that of
/// a video: by a folder of its path, by the ending of its path, or by its query.
pub open spec fn is_file(url: UrlModel) -> bool {
    &&& url.host matches Some(host) && (is_below(lower(host), "zjcdn.com"@) || is_below(
        lower(host),
        "douyinvod.com"@,
    ) || is_below(lower(host), "bytecdntp.com"@) || is_below(lower(host), "bytecdn.cn"@))
    &&& is_around(lower(url.path), "/video/"@) || ".mp4"@.is_suffix_of(lower(url.path))
        || ".m4v"@.is_suffix_of(lower(url.path)) || ".mov"@.is_suffix_of(lower(url.path))
        || url.pairs().contains(("mime_type"@, "video_mp4"@))
}

/// A URL leads to a media file by way of an endpoint, is one itself, or neither.
pub proof fn urls_are_told_apart_by_host_and_path(url: UrlModel)
    ensures
        classified(url) == Directness::PlayEndpoint <==> is_endpoint(url),
        classified(url) == Directness::CdnMedia <==> is_file(url) && !is_endpoint(url),
        classified(url) == Directness::Unknown <==> !is_file(url) && !is_endpoint(url),
{
    if let Some(host) = url.host {
        lemma_below(lower(host), "zjcdn.com"@);
        lemma_below(lower(host), "douyinvod.com"@);
        lemma_below(lower(host), "bytecdntp.com"@);
        lemma_below(lower(host), "bytecdn.cn"@);
        parts_stand_between_others(lower(url.path), "/video/"@);
    }
}

/// Media is fetched from endpoints and media files, over HTTPS. The address is
/// read by itself, or from the URL that redirected to it.
pub proof fn media_is_fetched_from_endpoints_and_files(
    url: UrlModel,
    text: Seq<char>,
    base: UrlModel,
)
    ensures
        is_open_https(url) && (is_endpoint(url) || is_file(url)) ==> media_checked(url) == Ok::<
            UrlModel,
            ErrorModel,
        >(url),
        is_open_https(url) && !is_endpoint(url) && !is_file(url) ==> (media_checked(
            url,
        ) matches Err(error) && error.code == "unsupported_media_host"@ && error.status == 502),
        !is_open_https(url) ==> (media_checked(url) matches Err(error) && error.code
            == "invalid_url"@ && error.status == 400),
        url_parsed(text) matches Some(url) ==> media_read(text, None) == media_checked(url),
        url_parsed(text) is None ==> (media_read(text, None) matches Err(error) && error.code
            == "invalid_media_redirect"@ && error.status == 502),
        url_joined(base.text(), text) matches Some(url) ==> media_read(text, Some(base))
            == media_checked(url),
        url_joined(base.text(), text) is None ==> (media_read(text, Some(base)) matches Err(error)
            && error.code == "invalid_media_redirect"@ && error.status == 502),
{
    urls_are_told_apart_by_host_and_path(url);
}

/// The kind of playback is known of the two endpoints and of media files.
pub proof fn playback_is_known_by_the_path(url: UrlModel)
    ensures
        is_endpoint(url) && url.path == "/aweme/v1/play/"@ ==> playback_variant(url) == Some(
            "play"@,
        ),
        is_endpoint(url) && url.path == "/aweme/v1/playwm/"@ ==> playback_variant(url) == Some(
            "playwm"@,
        ),
        is_file(url) && !is_endpoint(url) ==> playback_variant(url) == Some("direct"@),
        is_endpoint(url) && url.path != "/aweme/v1/play/"@ && url.path != "/aweme/v1/playwm/"@
            ==> playback_variant(url) is None,
        !is_file(url) && !is_endpoint(url) ==> playback_variant(url) is None,
{
    urls_are_told_apart_by_host_and_path(url);
    reveal_strlit("/aweme/v1/play/");
    reveal_strlit("/aweme/v1/playwm/");
    assert("/aweme/v1/play/"@.len() == 15 && "/aweme/v1/playwm/"@.len() == 17);
    if url.path == "/aweme/v1/play/"@ {
        assert("/aweme/v1/play/"@.is_prefix_of(url.path));
    }
    if url.path == "/aweme/v1/playwm/"@ {
        assert("/aweme/v1/playwm/"@.is_prefix_of(url.path));
    }
}

/// One of the pairs of a query has this name.
pub open spec fn has_pair(pairs: Seq<(Seq<char>, Seq<char>)>, name: Seq<char>) -> bool {
    exists|i: int| 0 <= i < pairs.len() && (#[trigger] pairs[i]).0 == name
}

/// An endpoint with a mark that names a video has one without a mark beside it,
/// at the same URL but for the path; nothing else has.
pub proof fn marked_endpoints_have_one_without(url: UrlModel)
    ensures
        clean_play(url) is Some <==> url.path == "/aweme/v1/playwm/"@ && has_pair(
            url.pairs(),
            "video_id"@,
        ),
        clean_play(url) matches Some(clean) ==> clean == (UrlModel {
            path: "/aweme/v1/play/"@,
            ..url
        }),
{
    lemma_first_value(url.pairs(), "video_id"@);
}

proof fn lemma_first_value(pairs: Seq<(Seq<char>, Seq<char>)>, name: Seq<char>)
    ensures
        crate::weburl::first_value(pairs, name) is Some <==> has_pair(pairs, name),
    decreases pairs.len(),
{
    if pairs.len() > 0 {
        let rest = pairs.skip(1);
        lemma_first_value(rest, name);
        if has_pair(rest, name) {
            let i = choose|i: int| 0 <= i < rest.len() && (#[trigger] rest[i]).0 == name;
            assert(pairs[i + 1].0 == name);
        }
        if has_pair(pairs, name) && pairs[0].0 != name {
            let i = choose|i: int| 0 <= i < pairs.len() && (#[trigger] pairs[i]).0 == name;
            assert(rest[i - 1].0 == name);
        }
    }
}

/// Images are fetched over HTTPS from hosts below six domains.
pub proof fn images_are_below_six_domains(url: UrlModel)
    ensures
        ({
            let listed = url.domain matches Some(name) && (is_below(lower(name), "douyinpic.com"@)
                || is_below(lower(name), "douyincdn.com"@) || is_below(
                lower(name),
                "byteimg.com"@,
            ) || is_below(lower(name), "bytecdn.cn"@) || is_below(lower(name), "pstatp.com"@)
                || is_below(lower(name), "ibytedapm.com"@));
            &&& is_open_https(url) && listed ==> image_checked(url) == Some(url)
            &&& !(is_open_https(url) && listed) ==> image_checked(url) is None
        }),
{
    if let Some(name) = url.domain {
        lemma_below(lower(name), "douyinpic.com"@);
        lemma_below(lower(name), "douyincdn.com"@);
        lemma_below(lower(name), "byteimg.com"@);
        lemma_below(lower(name), "bytecdn.cn"@);
        lemma_below(lower(name), "pstatp.com"@);
        lemma_below(lower(name), "ibytedapm.com"@);
    }
}

/// An address that begins with two slashes is of HTTPS; any other is complete.
pub proof fn addresses_without_a_scheme_are_of_https(rest: Seq<char>, address: Seq<char>)
    requires
        address.len() < 2 || address[0] != '/' || address[1] != '/',
    ensures
        with_scheme(seq!['/', '/'] + rest) == "https://"@ + rest,
        with_scheme(address) == address,
{
    reveal_strlit("//");
    reveal_strlit("https:");
    reveal_strlit("https://");
    let whole = seq!['/', '/'] + rest;
    assert("//"@ =~= seq!['/', '/']);
    assert(whole.subrange(0, 2) =~= seq!['/', '/']);
    assert("//"@.is_prefix_of(whole));
    assert("https:"@ + whole =~= "https://"@ + rest);
    if "//"@.is_prefix_of(address) {
        assert("//"@[0] == '/' && "//"@[1] == '/');
    }
}

/// The image at an address in a document: the white space around the address is
/// left out, entities and escapes are decoded, and the scheme is added.
pub proof fn image_addresses_are_decoded(address: Seq<char>)
    ensures
        ({
            let text = with_scheme(backslashes_decoded(entities_decoded(trimmed(address))));
            image_url(address) == (match url_parsed(text) {
                Some(url) => image_checked(url),
                None => None,
            })
        }),
{
}

/// The path is that of a picture: by its ending, or because it is of an avatar,
/// a cover or a poster.
pub open spec fn is_picture(path: Seq<char>) -> bool {
    ||| ".avif"@.is_suffix_of(path)
    ||| ".gif"@.is_suffix_of(path)
    ||| ".jpg"@.is_suffix_of(path)
    ||| ".jpeg"@.is_suffix_of(path)
    ||| ".png"@.is_suffix_of(path)
    ||| ".svg"@.is_suffix_of(path)
    ||| ".webp"@.is_suffix_of(path)
    ||| is_around(path, "avatar"@)
    ||| is_around(path, "cover"@)
    ||| is_around(path, "poster"@)
}

/// A media candidate is at any address of HTTPS that is not a picture's. Its
/// fragment is left out. An address that is URI-encoded from its scheme on is
/// decoded.
pub proof fn candidates_are_no_pictures(url: UrlModel, address: Seq<char>)
    ensures
        is_open_https(url) && !is_picture(lower(url.path)) ==> candidate_checked(url) == Some(
            UrlModel { fragment: None, ..url },
        ),
        !is_open_https(url) || is_picture(lower(url.path)) ==> candidate_checked(url) is None,
        ({
            let text = backslashes_decoded(entities_decoded(trimmed(address)));
            let encoded = "http%3a"@.is_prefix_of(lower(text)) || "https%3a"@.is_prefix_of(
                lower(text),
            );
            let plain = if encoded {
                percent_decoded(text)
            } else {
                Some(text)
            };
            &&& plain is None ==> candidate_url(address) is None
            &&& plain matches Some(plain) ==> candidate_url(address) == (match url_parsed(
                with_scheme(plain),
            ) {
                Some(url) => candidate_checked(url),
                None => None,
            })
        }),
{
    parts_stand_between_others(lower(url.path), "avatar"@);
    parts_stand_between_others(lower(url.path), "cover"@);
    parts_stand_between_others(lower(url.path), "poster"@);
}

/// The character may stand in a link: it is no white space, bracket or quotation
/// mark.
pub open spec fn is_of_link(character: char) -> bool {
    !is_blank(character) && character != '<' && character != '>' && character != '"' && character
        != '\'' && character != '`'
}

/// The character ends a sentence or a bracket, and no link.
pub open spec fn ends_a_sentence(character: char) -> bool {
    ||| character == ')'
    ||| character == ','
    ||| character == '.'
    ||| character == ';'
    ||| character == '!'
    ||| character == '?'
    ||| character == '，'
    ||| character == '。'
    ||| character == '！'
    ||| character == '？'
    ||| character == '；'
    ||| character == '：'
    ||| character == '、'
    ||| character == '）'
    ||| character == '》'
    ||| character == '」'
}

/// The text is `http://` or `https://`, in small or capital letters; the `s` may
/// be the long one too.
pub open spec fn is_scheme(text: Seq<char>) -> bool {
    ||| lower(text) == "http://"@
    ||| text.len() == 8 && lower(text.subrange(0, 4)) == "http"@ && (text[4] == 's' || text[4]
        == 'S' || text[4] == '\u{17f}') && text.subrange(5, 8) == "://"@
}

/// A share text leads to the first link in it, up to white space, a bracket or a
/// quotation mark, without the punctuation at its end. What stands before and
/// behind the link makes no difference.
pub proof fn share_texts_lead_to_their_link(
    input: Seq<char>,
    before: Seq<char>,
    scheme: Seq<char>,
    link: Seq<char>,
    punctuation: Seq<char>,
    after: Seq<char>,
)
    requires
        trimmed(input) == before + scheme + link + punctuation + after,
        vstd::utf8::encode_utf8(trimmed(input)).len() <= 16384,
        !is_around(before, "://"@),
        is_scheme(scheme),
        link.len() > 0,
        !ends_a_sentence(link.last()),
        forall|i: int| 0 <= i < link.len() ==> is_of_link(#[trigger] link[i]),
        forall|i: int|
            0 <= i < punctuation.len() ==> is_of_link(#[trigger] punctuation[i])
                && ends_a_sentence(punctuation[i]),
        after.len() > 0 ==> !is_of_link(after[0]),
    ensures
        share_document(input) == document_read(scheme + link),
{
    let text = before + scheme + link + punctuation + after;
    let at = before.len() as int;
    assert(text.subrange(at, at + scheme.len()) =~= scheme);
    assert(text.subrange(0, at) =~= before);
    lemma_scheme(text, before, scheme);
    lemma_before(text, before, scheme, 0);
    let body = link + punctuation;
    let start = at + scheme.len();
    assert(text =~= before + scheme + body + after);
    assert forall|i: int| start <= i < start + body.len() implies is_link_char(
        #[trigger] text[i],
    ) by {
        assert(text[i] == body[i - start]);
        if i - start < link.len() {
            assert(is_of_link(link[i - start]));
        } else {
            assert(is_of_link(punctuation[i - start - link.len()]));
        }
        lemma_link_char(text[i]);
    }
    assert(start + body.len() < text.len() ==> text[start + body.len()] == after[0]);
    if after.len() > 0 {
        lemma_link_char(after[0]);
    }
    lemma_link_end(text, start, start + body.len());
    assert(text[start] == link[0]);
    assert(is_of_link(link[0]));
    lemma_link_char(link[0]);
    let found = scheme + link + punctuation;
    assert(text.subrange(at, start + body.len()) =~= found);
    reveal_strlit("http://");
    assert("http://"@.len() == 7);
    assert(scheme.len() == lower(scheme).len());
    assert(link_head(text, at) == scheme.len());
    assert(crate::address::is_link_at(text, at));
    assert(link_from(text, at) == Some(found));
    assert(first_link(text) == Some(found));
    lemma_punctuation(scheme + link, punctuation);
    assert((scheme + link).last() == link.last());
}

proof fn lemma_link_char(character: char)
    ensures
        is_link_char(character) <==> is_of_link(character),
{
    crate::text_laws::lemma_blank(character);
}

proof fn lemma_scheme(text: Seq<char>, before: Seq<char>, scheme: Seq<char>)
    requires
        before.len() + scheme.len() <= text.len(),
        text.subrange(before.len() as int, before.len() + scheme.len() as int) == scheme,
        is_scheme(scheme),
    ensures
        link_head(text, before.len() as int) == scheme.len(),
{
    let at = before.len() as int;
    reveal_strlit("http://");
    assert("http://"@.len() == 7);
    assert(scheme.len() == lower(scheme).len());
    if lower(scheme) != "http://"@ {
        assert forall|i: int| at <= i < at + 8 implies #[trigger] text[i] == scheme[i - at] by {
            assert(text.subrange(at, at + 8)[i - at] == text[i]);
        }
        assert(text.subrange(at, at + 4) =~= scheme.subrange(0, 4));
        assert(text.subrange(at + 5, at + 8) =~= scheme.subrange(5, 8));
        assert(text[at + 4] == scheme[4]);
        let seven = text.subrange(at, at + 7);
        assert(lower(seven)[4] != ':') by {
            assert(seven[4] == text[at + 4]);
        }
        assert("http://"@[4] == ':');
    }
}

proof fn lemma_before(text: Seq<char>, before: Seq<char>, scheme: Seq<char>, from: int)
    requires
        before.len() + scheme.len() <= text.len(),
        text.subrange(0, before.len() as int) == before,
        text.subrange(before.len() as int, before.len() + scheme.len() as int) == scheme,
        is_scheme(scheme),
        !is_around(before, "://"@),
        0 <= from <= before.len(),
    ensures
        link_from(text, from) == link_from(text, before.len() as int),
    decreases before.len() - from,
{
    if from < before.len() {
        lemma_no_link(text, before, scheme, from);
        lemma_before(text, before, scheme, from + 1);
    }
}

proof fn lemma_scheme_letters(scheme: Seq<char>)
    requires
        is_scheme(scheme),
    ensures
        scheme.len() >= 7,
        lower(scheme)[0] == 'h' && lower(scheme)[1] == 't' && lower(scheme)[2] == 't' && lower(
            scheme,
        )[3] == 'p',
        scheme[0] != '/' && scheme[0] != ':' && scheme[1] != ':' && scheme[2] != ':' && scheme[3]
            != ':',
        scheme[4] == ':' ==> scheme[3] != 's' && scheme[3] != 'S' && scheme[3] != '\u{17f}',
{
    reveal_strlit("http://");
    reveal_strlit("http");
    assert("http://"@.len() == 7 && "http"@.len() == 4);
    assert("http"@[0] == 'h' && "http"@[1] == 't' && "http"@[2] == 't' && "http"@[3] == 'p');
    assert("http://"@[0] == 'h' && "http://"@[1] == 't' && "http://"@[2] == 't' && "http://"@[3]
        == 'p');
    assert(scheme.len() == lower(scheme).len());
    if lower(scheme) != "http://"@ {
        let four = scheme.subrange(0, 4);
        assert(lower(four)[0] == lower(scheme)[0] && lower(four)[1] == lower(scheme)[1] && lower(
            four,
        )[2] == lower(scheme)[2] && lower(four)[3] == lower(scheme)[3]);
    }
}

proof fn lemma_no_link(text: Seq<char>, before: Seq<char>, scheme: Seq<char>, from: int)
    requires
        before.len() + scheme.len() <= text.len(),
        text.subrange(0, before.len() as int) == before,
        text.subrange(before.len() as int, before.len() + scheme.len() as int) == scheme,
        is_scheme(scheme),
        !is_around(before, "://"@),
        0 <= from < before.len(),
    ensures
        !crate::address::is_link_at(text, from),
{
    let at = before.len() as int;
    reveal_strlit("http://");
    reveal_strlit("://");
    assert("http://"@.len() == 7 && "://"@.len() == 3);
    assert("://"@[0] == ':' && "://"@[1] == '/' && "://"@[2] == '/');
    assert("http://"@[4] == ':' && "http://"@[5] == '/' && "http://"@[6] == '/');
    lemma_scheme_letters(scheme);
    parts_stand_between_others(before, "://"@);
    assert forall|i: int| 0 <= i < at implies #[trigger] text[i] == before[i] by {
        assert(before[i] == text.subrange(0, at)[i]);
    }
    assert forall|i: int| at <= i < at + scheme.len() implies #[trigger] text[i] == scheme[i
        - at] by {
        assert(text.subrange(at, at + scheme.len())[i - at] == text[i]);
    }
    if from + 7 <= text.len() && lower(text.subrange(from, from + 7)) == "http://"@ {
        let head = text.subrange(from, from + 7);
        assert(lower(head)[4] == ':' && lower(head)[5] == '/' && lower(head)[6] == '/');
        assert(text[from + 4] == ':' && text[from + 5] == '/' && text[from + 6] == '/');
        lemma_no_sign(text, before, scheme, from + 4);
    }
    if from + 8 <= text.len() && crate::address::is_letter_s(text[from + 4]) && text.subrange(
        from + 5,
        from + 8,
    ) == "://"@ {
        let sign = text.subrange(from + 5, from + 8);
        assert(sign[0] == ':' && sign[1] == '/' && sign[2] == '/');
        assert(text[from + 5] == ':' && text[from + 6] == '/' && text[from + 7] == '/');
        if from + 5 == at + 4 {
            assert(text[at + 3] == scheme[3] && text[at + 4] == scheme[4]);
        } else {
            lemma_no_sign(text, before, scheme, from + 5);
        }
    }
}

proof fn lemma_no_sign(text: Seq<char>, before: Seq<char>, scheme: Seq<char>, at: int)
    requires
        before.len() + scheme.len() <= text.len(),
        scheme.len() >= 7,
        forall|i: int| 0 <= i < before.len() ==> #[trigger] text[i] == before[i],
        forall|i: int|
            before.len() <= i < before.len() + scheme.len() ==> #[trigger] text[i] == scheme[i
                - before.len()],
        scheme[0] != '/' && scheme[0] != ':' && scheme[1] != ':' && scheme[2] != ':' && scheme[3]
            != ':',
        !holds_text(before, "://"@),
        0 <= at < before.len() + 4,
        at + 3 <= text.len(),
    ensures
        !(text[at] == ':' && text[at + 1] == '/' && text[at + 2] == '/'),
{
    let end = before.len() as int;
    reveal_strlit("://");
    if text[at] == ':' && text[at + 1] == '/' && text[at + 2] == '/' {
        if at + 3 <= end {
            assert(before[at] == ':' && before[at + 1] == '/' && before[at + 2] == '/');
            assert(before.subrange(at, at + 3) =~= "://"@);
            assert(occurs_at(before, "://"@, at));
        } else if at < end {
            assert(text[end] == scheme[0]);
        } else {
            assert(text[at] == scheme[at - end]);
        }
    }
}

proof fn lemma_link_end(text: Seq<char>, from: int, end: int)
    requires
        0 <= from <= end <= text.len(),
        forall|i: int| from <= i < end ==> is_link_char(#[trigger] text[i]),
        end < text.len() ==> !is_link_char(text[end]),
    ensures
        link_end(text, from) == end,
    decreases end - from,
{
    if from < end {
        assert(is_link_char(text[from]));
        lemma_link_end(text, from + 1, end);
    }
}

proof fn lemma_punctuation(core: Seq<char>, punctuation: Seq<char>)
    requires
        core.len() > 0,
        !ends_a_sentence(core.last()),
        forall|i: int| 0 <= i < punctuation.len() ==> ends_a_sentence(#[trigger] punctuation[i]),
    ensures
        trim_end_by(
            core + punctuation,
            |character: char| crate::address::is_share_punctuation(character),
        ) == core,
    decreases punctuation.len(),
{
    if punctuation.len() > 0 {
        let fewer = punctuation.drop_last();
        assert forall|i: int| 0 <= i < fewer.len() implies ends_a_sentence(#[trigger] fewer[i]) by {
            assert(ends_a_sentence(punctuation[i]));
        }
        lemma_punctuation(core, fewer);
        assert(ends_a_sentence(punctuation[punctuation.len() - 1]));
        assert((core + punctuation).last() == punctuation.last());
        assert((core + punctuation).drop_last() =~= core + fewer);
    } else {
        assert(core + punctuation =~= core);
    }
}

/// A share text without words, with too many bytes, or without a link is
/// refused.
pub proof fn share_texts_without_a_link_are_refused(input: Seq<char>)
    ensures
        trimmed(input).len() == 0 ==> (share_document(input) matches Err(error) && error.code
            == "missing_input"@ && error.status == 400),
        trimmed(input).len() > 0 && vstd::utf8::encode_utf8(trimmed(input)).len() > 16384
            ==> (share_document(input) matches Err(error) && error.code == "input_too_large"@
            && error.status == 400),
        trimmed(input).len() > 0 && vstd::utf8::encode_utf8(trimmed(input)).len() <= 16384
            && !trimmed(input).contains(':') ==> (share_document(input) matches Err(error)
            && error.code == "missing_url"@ && error.status == 400),
{
    if !trimmed(input).contains(':') {
        lemma_no_colon(trimmed(input), 0);
    }
}

proof fn lemma_no_colon(text: Seq<char>, from: int)
    requires
        !text.contains(':'),
        0 <= from <= text.len(),
    ensures
        link_from(text, from) is None,
    decreases text.len() - from,
{
    if from < text.len() {
        reveal_strlit("http://");
        reveal_strlit("://");
        if from + 7 <= text.len() && lower(text.subrange(from, from + 7)) == "http://"@ {
            assert(lower(text.subrange(from, from + 7))[4] == "http://"@[4]);
            assert(text[from + 4] == ':');
        }
        if from + 8 <= text.len() && text.subrange(from + 5, from + 8) == "://"@ {
            assert(text.subrange(from + 5, from + 8)[0] == "://"@[0]);
            assert(text[from + 5] == ':');
        }
        lemma_no_colon(text, from + 1);
    }
}

/// A URL shows the video whose number follows the first `/video/` or `/note/` in
/// its path, up to the first character that is no digit.
pub proof fn paths_show_their_video(
    url: UrlModel,
    before: Seq<char>,
    folder: Seq<char>,
    id: Seq<char>,
    after: Seq<char>,
)
    requires
        url.path == before + folder + id + after,
        folder == "/video/"@ || folder == "/note/"@,
        !is_around((before + folder).drop_last(), "/video/"@),
        !is_around((before + folder).drop_last(), "/note/"@),
        id.len() > 0,
        forall|i: int| 0 <= i < id.len() ==> '0' <= #[trigger] id[i] <= '9',
        after.len() > 0 ==> !('0' <= after[0] <= '9'),
    ensures
        video_in(url) == Some(id),
{
    let path = url.path;
    let at = before.len() as int;
    reveal_strlit("/video/");
    reveal_strlit("/note/");
    assert("/video/"@.len() == 7 && "/note/"@.len() == 6);
    assert(path.subrange(at, at + folder.len()) =~= folder);
    assert(occurs_at(path, folder, at));
    if folder == "/note/"@ && occurs_at(path, "/video/"@, at) {
        assert(path.subrange(at, at + 7)[1] == "/video/"@[1]);
        assert(path.subrange(at, at + 6)[1] == "/note/"@[1]);
        assert(path[at + 1] == 'v' && path[at + 1] == 'n');
    }
    let start = at + folder.len();
    assert forall|i: int| start <= i < start + id.len() implies crate::text::is_digit(
        #[trigger] path[i],
    ) by {
        assert(path[i] == id[i - start]);
    }
    assert(start + id.len() < path.len() ==> path[start + id.len()] == after[0]);
    lemma_digits_end(path, start, start + id.len());
    assert(path[start] == id[0]);
    assert(path.subrange(start, start + id.len()) =~= id);
    assert(path.subrange(0, at + folder.len()) =~= before + folder);
    lemma_no_video(path, before, folder, 0);
}

proof fn lemma_digits_end(path: Seq<char>, from: int, end: int)
    requires
        0 <= from <= end <= path.len(),
        forall|i: int| from <= i < end ==> crate::text::is_digit(#[trigger] path[i]),
        end < path.len() ==> !crate::text::is_digit(path[end]),
    ensures
        digits_end(path, from) == end,
    decreases end - from,
{
    if from < end {
        assert(crate::text::is_digit(path[from]));
        lemma_digits_end(path, from + 1, end);
    }
}

proof fn lemma_no_video(path: Seq<char>, before: Seq<char>, folder: Seq<char>, from: int)
    requires
        before.len() + folder.len() <= path.len(),
        path.subrange(0, before.len() + folder.len() as int) == before + folder,
        folder == "/video/"@ || folder == "/note/"@,
        !is_around((before + folder).drop_last(), "/video/"@),
        !is_around((before + folder).drop_last(), "/note/"@),
        0 <= from <= before.len(),
    ensures
        video_from(path, from) == video_from(path, before.len() as int),
    decreases before.len() - from,
{
    if from < before.len() {
        let whole = before + folder;
        let early = whole.drop_last();
        reveal_strlit("/video/");
        reveal_strlit("/note/");
        assert("/video/"@.len() == 7 && "/note/"@.len() == 6);
        if occurs_at(path, "/note/"@, from) {
            assert(early.subrange(from, from + 6) =~= path.subrange(from, from + 6)) by {
                assert forall|i: int| from <= i < from + 6 implies early[i] == path[i] by {
                    assert(path.subrange(0, whole.len() as int)[i] == whole[i]);
                }
            }
            assert(occurs_at(early, "/note/"@, from));
            parts_stand_between_others(early, "/note/"@);
        }
        if occurs_at(path, "/video/"@, from) {
            if from + 7 <= early.len() {
                assert(early.subrange(from, from + 7) =~= path.subrange(from, from + 7)) by {
                    assert forall|i: int| from <= i < from + 7 implies early[i] == path[i] by {
                        assert(path.subrange(0, whole.len() as int)[i] == whole[i]);
                    }
                }
                assert(occurs_at(early, "/video/"@, from));
                parts_stand_between_others(early, "/video/"@);
            } else {
                assert(folder == "/note/"@);
                let at = before.len() as int;
                let offset = at - from;
                assert(offset == 1);
                assert(path.subrange(from, from + 7)[1] == "/video/"@[1]);
                assert(path.subrange(0, whole.len() as int)[at] == folder[0]);
                assert("/note/"@[0] == '/');
                assert("/video/"@[1] == 'v');
            }
        }
        lemma_no_video(path, before, folder, from + 1);
    }
}

/// Where the path shows no video, the query does, by its first `modal_id` or
/// else by its first `aweme_id`.
pub proof fn queries_show_their_video(
    url: UrlModel,
    before: Seq<(Seq<char>, Seq<char>)>,
    id: Seq<char>,
    after: Seq<(Seq<char>, Seq<char>)>,
)
    requires
        !is_around(url.path, "/video/"@),
        !is_around(url.path, "/note/"@),
    ensures
        url.pairs() == before.push(("modal_id"@, id)) + after && !has_pair(before, "modal_id"@)
            ==> video_in(url) == Some(id),
        url.pairs() == before.push(("aweme_id"@, id)) + after && !has_pair(before, "aweme_id"@)
            && !has_pair(url.pairs(), "modal_id"@) ==> video_in(url) == Some(id),
        !has_pair(url.pairs(), "modal_id"@) && !has_pair(url.pairs(), "aweme_id"@) ==> video_in(
            url,
        ) is None,
{
    parts_stand_between_others(url.path, "/video/"@);
    parts_stand_between_others(url.path, "/note/"@);
    lemma_no_video_at_all(url.path, 0);
    lemma_first_value(url.pairs(), "modal_id"@);
    lemma_first_value(url.pairs(), "aweme_id"@);
    if !has_pair(before, "modal_id"@) {
        lemma_first_value_is(before, "modal_id"@, id, after);
    }
    if !has_pair(before, "aweme_id"@) {
        lemma_first_value_is(before, "aweme_id"@, id, after);
    }
}

proof fn lemma_first_value_is(
    before: Seq<(Seq<char>, Seq<char>)>,
    name: Seq<char>,
    value: Seq<char>,
    after: Seq<(Seq<char>, Seq<char>)>,
)
    requires
        !has_pair(before, name),
    ensures
        crate::weburl::first_value(before.push((name, value)) + after, name) == Some(value),
    decreases before.len(),
{
    let whole = before.push((name, value)) + after;
    if before.len() > 0 {
        let fewer = before.skip(1);
        assert(before[0].0 != name);
        if has_pair(fewer, name) {
            let i = choose|i: int| 0 <= i < fewer.len() && (#[trigger] fewer[i]).0 == name;
            assert(before[i + 1].0 == name);
        }
        lemma_first_value_is(fewer, name, value, after);
        assert(whole[0] == before[0]);
        assert(whole.skip(1) =~= fewer.push((name, value)) + after);
    } else {
        assert(whole[0] == (name, value));
    }
}

proof fn lemma_no_video_at_all(path: Seq<char>, from: int)
    requires
        !holds_text(path, "/video/"@),
        !holds_text(path, "/note/"@),
        0 <= from <= path.len(),
    ensures
        video_from(path, from) is None,
    decreases path.len() - from,
{
    if from < path.len() {
        assert(!occurs_at(path, "/video/"@, from));
        assert(!occurs_at(path, "/note/"@, from));
        lemma_no_video_at_all(path, from + 1);
    }
}

} // verus!
